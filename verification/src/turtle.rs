//! The turtle interpreter: replays a prefix of a command sequence with a
//! fresh pen each time, maintaining position, heading and a pose stack, and
//! emitting one line segment per `Move`.
//!
//! Popping an empty stack is a documented no-op, not an error; the trailing
//! turn of `Pop` applies either way.

use crate::actions::Action;
use crate::actions::ActionTable;
use crate::actions::action_of;
use crate::geom::MAX_COMMANDS;
use crate::geom::SCALE_MAX;
use crate::geom::ORIGIN_MAX;
use crate::geom::Segment;
use crate::geom::UNIT;
use crate::geom::Viewport;
use crate::geom::scale_fixed;
use crate::geom::scaled;
use crate::geom::lemma_scaled_bound;
use crate::geom::lemma_scaled_unit;
use crate::geom::valid_dirs;
use crate::geom::valid_viewport;
use crate::geom::wrap_heading;
use crate::geom::wrap_spec;
use vstd::arithmetic::div_mod::lemma_mod_bound;
use vstd::prelude::*;

verus! {

/// A saved pen pose: position in subpixels and heading step.
#[derive(Clone, Copy, PartialEq, Eq, Structural, Debug)]
pub struct PenState {
    pub x: i64,
    pub y: i64,
    pub heading: usize,
}

/// The pen: current pose plus the LIFO pose stack.
pub struct Pen {
    pub x: i64,
    pub y: i64,
    pub heading: usize,
    pub stack: Vec<PenState>,
}

/// The mathematical pen: unbounded coordinates, heading step, pose stack.
pub ghost struct SpecPen {
    pub x: int,
    pub y: int,
    pub h: int,
    pub stack: Seq<(int, int, int)>,
}

/// The pen a replay starts from: at the viewport origin, heading step zero,
/// empty stack.
pub open spec fn init_pen(vp: Viewport) -> SpecPen {
    SpecPen { x: vp.ox as int, y: vp.oy as int, h: 0, stack: Seq::empty() }
}

/// What one action does to the pen.
pub open spec fn step_pen(p: SpecPen, a: Action, dirs: Seq<(i32, i32)>, scale: int) -> SpecPen {
    match a {
        Action::Move => SpecPen {
            x: p.x + scaled(dirs[p.h].0 as int, scale),
            y: p.y + scaled(dirs[p.h].1 as int, scale),
            ..p
        },
        Action::Turn(d) => SpecPen { h: wrap_spec(p.h, d as int, dirs.len() as int), ..p },
        Action::Push(d) => SpecPen {
            h: wrap_spec(p.h, d as int, dirs.len() as int),
            stack: p.stack.push((p.x, p.y, p.h)),
            ..p
        },
        Action::Pop(d) => {
            let q = if p.stack.len() > 0 {
                SpecPen {
                    x: p.stack.last().0,
                    y: p.stack.last().1,
                    h: p.stack.last().2,
                    stack: p.stack.drop_last(),
                }
            } else {
                p
            };
            SpecPen { h: wrap_spec(q.h, d as int, dirs.len() as int), ..q }
        },
        Action::Idle => p,
    }
}

/// The segment one action emits: exactly `Move` draws, from the old to the
/// new position.
pub open spec fn emit_spec(p: SpecPen, a: Action, dirs: Seq<(i32, i32)>, scale: int) -> Seq<
    (int, int, int, int),
> {
    match a {
        Action::Move => seq![
            (
                p.x,
                p.y,
                p.x + scaled(dirs[p.h].0 as int, scale),
                p.y + scaled(dirs[p.h].1 as int, scale),
            ),
        ],
        _ => Seq::empty(),
    }
}

/// The pen after replaying the first `k` commands.
pub open spec fn run_spec(
    cmds: Seq<char>,
    k: nat,
    table: Seq<(char, Action)>,
    dirs: Seq<(i32, i32)>,
    vp: Viewport,
) -> SpecPen
    decreases k,
{
    if k == 0 {
        init_pen(vp)
    } else {
        step_pen(
            run_spec(cmds, (k - 1) as nat, table, dirs, vp),
            action_of(table, cmds[k - 1]),
            dirs,
            vp.scale as int,
        )
    }
}

/// The segments emitted while replaying the first `k` commands, in emission
/// order.
pub open spec fn segments_spec(
    cmds: Seq<char>,
    k: nat,
    table: Seq<(char, Action)>,
    dirs: Seq<(i32, i32)>,
    vp: Viewport,
) -> Seq<(int, int, int, int)>
    decreases k,
{
    if k == 0 {
        Seq::empty()
    } else {
        segments_spec(cmds, (k - 1) as nat, table, dirs, vp) + emit_spec(
            run_spec(cmds, (k - 1) as nat, table, dirs, vp),
            action_of(table, cmds[k - 1]),
            dirs,
            vp.scale as int,
        )
    }
}

/// The subpixel views of a list of emitted segments.
pub open spec fn seg_views(v: Seq<Segment>) -> Seq<(int, int, int, int)> {
    v.map_values(|s: Segment| s@)
}

/// The length of the replayed prefix: `upto` clamped at the sequence
/// length.
pub open spec fn prefix_len(upto: nat, len: nat) -> nat {
    if upto <= len {
        upto
    } else {
        len
    }
}

/// How far a pen can have strayed after `i` commands.
pub open spec fn pen_bound(i: int) -> int {
    ORIGIN_MAX + i * SCALE_MAX
}

/// The pen is within `pen_bound(i)`, its heading indexes the direction
/// table, and every saved pose satisfies the same.
pub open spec fn bounded_pen(p: SpecPen, i: int, n: int) -> bool {
    &&& -pen_bound(i) <= p.x <= pen_bound(i)
    &&& -pen_bound(i) <= p.y <= pen_bound(i)
    &&& 0 <= p.h < n
    &&& forall|j: int|
        0 <= j < p.stack.len() ==> {
            &&& -pen_bound(i) <= (#[trigger] p.stack[j]).0 <= pen_bound(i)
            &&& -pen_bound(i) <= p.stack[j].1 <= pen_bound(i)
            &&& 0 <= p.stack[j].2 < n
        }
}

/// Replaying any prefix keeps the pen, and every saved pose, within the
/// linear bound that one maximal step per command allows.
pub proof fn lemma_run_bounds(
    cmds: Seq<char>,
    k: nat,
    table: Seq<(char, Action)>,
    dirs: Seq<(i32, i32)>,
    vp: Viewport,
)
    requires
        valid_dirs(dirs),
        valid_viewport(vp),
    ensures
        bounded_pen(run_spec(cmds, k, table, dirs, vp), k as int, dirs.len() as int),
    decreases k,
{
    let n = dirs.len() as int;
    if k > 0 {
        let k1 = (k - 1) as nat;
        lemma_run_bounds(cmds, k1, table, dirs, vp);
        let p = run_spec(cmds, k1, table, dirs, vp);
        let a = action_of(table, cmds[k - 1]);
        let scale = vp.scale as int;
        assert(pen_bound(k1 as int) + SCALE_MAX == pen_bound(k as int));
        match a {
            Action::Move => {
                lemma_scaled_bound(dirs[p.h].0 as int, scale, UNIT as int);
                lemma_scaled_bound(dirs[p.h].1 as int, scale, UNIT as int);
                lemma_scaled_unit(scale);
            },
            Action::Turn(d) => {
                lemma_mod_bound(p.h + d as int, n);
            },
            Action::Push(d) => {
                lemma_mod_bound(p.h + d as int, n);
            },
            Action::Pop(d) => {
                if p.stack.len() > 0 {
                    lemma_mod_bound(p.stack.last().2 + d as int, n);
                } else {
                    lemma_mod_bound(p.h + d as int, n);
                }
            },
            Action::Idle => {},
        }
    }
}

/// Law: a branch is transparent to the outer path. Popping right after a
/// push restores the pen's position and the saved heading (the pop's own
/// turn still applies), and leaves the pose stack as it was — whatever
/// turns the push and the pop carry.
pub proof fn lemma_push_then_pop_restores_pose(
    p: SpecPen,
    d1: i32,
    d2: i32,
    dirs: Seq<(i32, i32)>,
    scale: int,
)
    requires
        dirs.len() >= 1,
    ensures
        ({
            let q = step_pen(step_pen(p, Action::Push(d1), dirs, scale), Action::Pop(d2), dirs, scale);
            &&& q.x == p.x
            &&& q.y == p.y
            &&& q.h == wrap_spec(p.h, d2 as int, dirs.len() as int)
            &&& q.stack =~= p.stack
        }),
{
    let mid = step_pen(p, Action::Push(d1), dirs, scale);
    assert(mid.stack.len() == p.stack.len() + 1);
    assert(mid.stack.last() == (p.x, p.y, p.h));
    assert(mid.stack.drop_last() =~= p.stack);
}

/// Every segment a replay emits lies within the same linear bound as the
/// pen itself.
pub proof fn lemma_segments_bounds(
    cmds: Seq<char>,
    k: nat,
    table: Seq<(char, Action)>,
    dirs: Seq<(i32, i32)>,
    vp: Viewport,
)
    requires
        valid_dirs(dirs),
        valid_viewport(vp),
    ensures
        forall|t: int|
            0 <= t < segments_spec(cmds, k, table, dirs, vp).len() ==> {
                let s = #[trigger] segments_spec(cmds, k, table, dirs, vp)[t];
                &&& -pen_bound(k as int) <= s.0 <= pen_bound(k as int)
                &&& -pen_bound(k as int) <= s.1 <= pen_bound(k as int)
                &&& -pen_bound(k as int) <= s.2 <= pen_bound(k as int)
                &&& -pen_bound(k as int) <= s.3 <= pen_bound(k as int)
            },
    decreases k,
{
    if k > 0 {
        let k1 = (k - 1) as nat;
        lemma_segments_bounds(cmds, k1, table, dirs, vp);
        lemma_run_bounds(cmds, k1, table, dirs, vp);
        let p = run_spec(cmds, k1, table, dirs, vp);
        let a = action_of(table, cmds[k - 1]);
        let scale = vp.scale as int;
        assert(pen_bound(k1 as int) + SCALE_MAX == pen_bound(k as int));
        match a {
            Action::Move => {
                lemma_scaled_bound(dirs[p.h].0 as int, scale, UNIT as int);
                lemma_scaled_bound(dirs[p.h].1 as int, scale, UNIT as int);
                lemma_scaled_unit(scale);
            },
            _ => {},
        }
        let prev = segments_spec(cmds, k1, table, dirs, vp);
        let cur = segments_spec(cmds, k, table, dirs, vp);
        assert forall|t: int| 0 <= t < cur.len() implies {
            let s = #[trigger] cur[t];
            &&& -pen_bound(k as int) <= s.0 <= pen_bound(k as int)
            &&& -pen_bound(k as int) <= s.1 <= pen_bound(k as int)
            &&& -pen_bound(k as int) <= s.2 <= pen_bound(k as int)
            &&& -pen_bound(k as int) <= s.3 <= pen_bound(k as int)
        } by {
            if t < prev.len() {
                assert(cur[t] == prev[t]);
            }
        }
    }
}

/// Law: monotone reveal. The segments emitted for a shorter prefix of a
/// fixed command sequence are a prefix, in emission order, of the segments
/// emitted for any longer prefix.
pub proof fn lemma_segments_monotone(
    cmds: Seq<char>,
    k1: nat,
    k2: nat,
    table: Seq<(char, Action)>,
    dirs: Seq<(i32, i32)>,
    vp: Viewport,
)
    requires
        k1 <= k2,
    ensures
        segments_spec(cmds, k1, table, dirs, vp).is_prefix_of(
            segments_spec(cmds, k2, table, dirs, vp),
        ),
    decreases k2,
{
    let s1 = segments_spec(cmds, k1, table, dirs, vp);
    if k1 == k2 {
        assert(s1.is_prefix_of(s1));
    } else {
        let prev = segments_spec(cmds, (k2 - 1) as nat, table, dirs, vp);
        lemma_segments_monotone(cmds, k1, (k2 - 1) as nat, table, dirs, vp);
        assert((prev + emit_spec(
            run_spec(cmds, (k2 - 1) as nat, table, dirs, vp),
            action_of(table, cmds[k2 - 1]),
            dirs,
            vp.scale as int,
        )).subrange(0, s1.len() as int) =~= prev.subrange(0, s1.len() as int));
    }
}

/// Replays `commands[0 .. min(upto, len)]` with a fresh pen and returns the
/// emitted line segments in emission order.
pub fn render_segments(
    commands: &Vec<char>,
    upto: usize,
    table: &ActionTable,
    dirs: &Vec<(i32, i32)>,
    vp: Viewport,
) -> (out: Vec<Segment>)
    requires
        valid_dirs(dirs@),
        valid_viewport(vp),
        commands@.len() <= MAX_COMMANDS,
    ensures
        seg_views(out@) =~= segments_spec(
            commands@,
            prefix_len(upto as nat, commands@.len()),
            table@,
            dirs@,
            vp,
        ),
{
    let k = if upto <= commands.len() {
        upto
    } else {
        commands.len()
    };
    let n = dirs.len();
    let mut pen = Pen { x: vp.ox, y: vp.oy, heading: 0, stack: Vec::new() };
    let mut out: Vec<Segment> = Vec::new();
    proof {
        assert(pen.stack@.map_values(|s: PenState| (s.x as int, s.y as int, s.heading as int))
            =~= Seq::<(int, int, int)>::empty());
    }
    for i in 0..k
        invariant
            k <= commands@.len() <= MAX_COMMANDS,
            valid_dirs(dirs@),
            valid_viewport(vp),
            n == dirs@.len(),
            pen.x as int == run_spec(commands@, i as nat, table@, dirs@, vp).x,
            pen.y as int == run_spec(commands@, i as nat, table@, dirs@, vp).y,
            pen.heading as int == run_spec(commands@, i as nat, table@, dirs@, vp).h,
            pen.stack@.map_values(|s: PenState| (s.x as int, s.y as int, s.heading as int))
                =~= run_spec(commands@, i as nat, table@, dirs@, vp).stack,
            seg_views(out@) =~= segments_spec(commands@, i as nat, table@, dirs@, vp),
    {
        proof {
            lemma_run_bounds(commands@, i as nat, table@, dirs@, vp);
            assert(pen_bound(i as int) <= pen_bound(MAX_COMMANDS as int));
        }
        let a = table.lookup(commands[i]);
        match a {
            Action::Move => {
                let dx = scale_fixed(dirs[pen.heading].0 as i64, vp.scale);
                let dy = scale_fixed(dirs[pen.heading].1 as i64, vp.scale);
                proof {
                    lemma_scaled_bound(dirs@[pen.heading as int].0 as int, vp.scale as int, UNIT as int);
                    lemma_scaled_bound(dirs@[pen.heading as int].1 as int, vp.scale as int, UNIT as int);
                    lemma_scaled_unit(vp.scale as int);
                }
                let nx = pen.x + dx;
                let ny = pen.y + dy;
                out.push(Segment { x0: pen.x, y0: pen.y, x1: nx, y1: ny });
                pen.x = nx;
                pen.y = ny;
                proof {
                    assert(seg_views(out@) =~= segments_spec(
                        commands@,
                        (i + 1) as nat,
                        table@,
                        dirs@,
                        vp,
                    ));
                }
            },
            Action::Turn(d) => {
                pen.heading = wrap_heading(pen.heading, d, n);
            },
            Action::Push(d) => {
                pen.stack.push(PenState { x: pen.x, y: pen.y, heading: pen.heading });
                pen.heading = wrap_heading(pen.heading, d, n);
                proof {
                    assert(pen.stack@.map_values(
                        |s: PenState| (s.x as int, s.y as int, s.heading as int),
                    ) =~= run_spec(commands@, (i + 1) as nat, table@, dirs@, vp).stack);
                }
            },
            Action::Pop(d) => {
                match pen.stack.pop() {
                    Some(s) => {
                        proof {
                            let rp = run_spec(commands@, i as nat, table@, dirs@, vp);
                            assert(rp.stack.len() == pen.stack@.len() + 1);
                            assert(rp.stack[rp.stack.len() - 1] == (
                                s.x as int,
                                s.y as int,
                                s.heading as int,
                            ));
                            assert(0 <= rp.stack[rp.stack.len() - 1].2 < n);
                        }
                        pen.x = s.x;
                        pen.y = s.y;
                        pen.heading = s.heading;
                    },
                    None => {},
                }
                pen.heading = wrap_heading(pen.heading, d, n);
                proof {
                    assert(pen.stack@.map_values(
                        |s: PenState| (s.x as int, s.y as int, s.heading as int),
                    ) =~= run_spec(commands@, (i + 1) as nat, table@, dirs@, vp).stack);
                }
            },
            Action::Idle => {},
        }
    }
    proof {
        if upto as nat <= commands@.len() {
            assert(prefix_len(upto as nat, commands@.len()) == k as nat);
        } else {
            assert(prefix_len(upto as nat, commands@.len()) == k as nat);
        }
    }
    out
}

} // verus!
