//! The viewport fitter: one dry-run pass over the whole command sequence,
//! tracking only position and heading for `Move` and `Turn` (stack-affecting
//! actions are not modeled, as a deliberate linear approximation), to obtain
//! a bounding box; from it, a uniform scale that fits the path into the
//! canvas with a margin, and the origin that puts the box's minimum corner
//! at the margin offset. A degenerate (sub-unit) extent falls back to one
//! unit step before dividing.

use crate::actions::Action;
use crate::actions::ActionTable;
use crate::actions::action_of;
use crate::geom::MAX_COMMANDS;
use crate::geom::SUBPIXELS;
use crate::geom::UNIT;
use crate::geom::Viewport;
use crate::geom::scale_fixed;
use crate::geom::scaled;
use crate::geom::lemma_scaled_bound;
use crate::geom::valid_dirs;
use crate::geom::valid_viewport;
use crate::geom::wrap_heading;
use crate::geom::wrap_spec;
use crate::raster::CANVAS_MAX;
use vstd::arithmetic::div_mod::lemma_div_is_ordered;
use vstd::arithmetic::div_mod::lemma_fundamental_div_mod;
use vstd::arithmetic::div_mod::lemma_div_is_ordered_by_denominator;
use vstd::arithmetic::div_mod::lemma_div_multiples_vanish;
use vstd::arithmetic::div_mod::lemma_mod_bound;
use vstd::math::max;
use vstd::math::min;
use vstd::prelude::*;

verus! {

/// The dry-run pen after `k` commands: position and heading only, starting
/// at the origin of turtle space; `Move` advances by one unscaled direction
/// entry, `Turn` turns, everything else is ignored.
pub open spec fn dry_pen(
    cmds: Seq<char>,
    k: nat,
    table: Seq<(char, Action)>,
    dirs: Seq<(i32, i32)>,
) -> (int, int, int)
    decreases k,
{
    if k == 0 {
        (0, 0, 0)
    } else {
        let p = dry_pen(cmds, (k - 1) as nat, table, dirs);
        match action_of(table, cmds[k - 1]) {
            Action::Move => (p.0 + dirs[p.2].0, p.1 + dirs[p.2].1, p.2),
            Action::Turn(d) => (p.0, p.1, wrap_spec(p.2, d as int, dirs.len() as int)),
            _ => p,
        }
    }
}

/// The running bounding box (min x, max x, min y, max y) of the dry-run
/// positions after each of the first `k` commands, the start included.
pub open spec fn dry_bbox(
    cmds: Seq<char>,
    k: nat,
    table: Seq<(char, Action)>,
    dirs: Seq<(i32, i32)>,
) -> (int, int, int, int)
    decreases k,
{
    if k == 0 {
        (0, 0, 0, 0)
    } else {
        let b = dry_bbox(cmds, (k - 1) as nat, table, dirs);
        let p = dry_pen(cmds, k, table, dirs);
        (min(b.0, p.0), max(b.1, p.0), min(b.2, p.1), max(b.3, p.1))
    }
}

/// The subpixels available on one axis after taking the margin off both
/// ends.
pub open spec fn avail_sub(side: int, margin_pm: int) -> int {
    side * SUBPIXELS as int * (1000 - 2 * margin_pm) / 1000
}

/// The margin offset on one axis, in subpixels.
pub open spec fn margin_sub(side: int, margin_pm: int) -> int {
    side * SUBPIXELS as int * margin_pm / 1000
}

/// An extent with the degenerate fallback applied: never below one unit
/// step.
pub open spec fn extent_fb(lo: int, hi: int) -> int {
    if hi - lo < UNIT as int {
        UNIT as int
    } else {
        hi - lo
    }
}

/// The raw fitted ratio: the smaller of the two per-axis ratios of
/// available subpixels to path extent, preserving aspect ratio.
pub open spec fn fit_scale_raw(
    cmds: Seq<char>,
    table: Seq<(char, Action)>,
    dirs: Seq<(i32, i32)>,
    width: int,
    height: int,
    margin_pm: int,
) -> int {
    let b = dry_bbox(cmds, cmds.len(), table, dirs);
    min(
        avail_sub(width, margin_pm) * UNIT as int / extent_fb(b.0, b.1),
        avail_sub(height, margin_pm) * UNIT as int / extent_fb(b.2, b.3),
    )
}

/// The fitted scale: the raw ratio, floored at one subpixel per step so
/// the scale is always positive, even where the available area truncates
/// the ratio to zero.
pub open spec fn fit_scale(
    cmds: Seq<char>,
    table: Seq<(char, Action)>,
    dirs: Seq<(i32, i32)>,
    width: int,
    height: int,
    margin_pm: int,
) -> int {
    max(fit_scale_raw(cmds, table, dirs, width, height, margin_pm), 1)
}

/// Every dry-run pen position, and therefore the bounding box, stays within
/// one unit step per command, and the heading indexes the direction table.
pub proof fn lemma_dry_bounds(
    cmds: Seq<char>,
    k: nat,
    table: Seq<(char, Action)>,
    dirs: Seq<(i32, i32)>,
)
    requires
        valid_dirs(dirs),
    ensures
        ({
            let p = dry_pen(cmds, k, table, dirs);
            let b = dry_bbox(cmds, k, table, dirs);
            &&& -(k as int) * UNIT <= p.0 <= (k as int) * UNIT
            &&& -(k as int) * UNIT <= p.1 <= (k as int) * UNIT
            &&& 0 <= p.2 < dirs.len()
            &&& -(k as int) * UNIT <= b.0 <= 0
            &&& 0 <= b.1 <= (k as int) * UNIT
            &&& -(k as int) * UNIT <= b.2 <= 0
            &&& 0 <= b.3 <= (k as int) * UNIT
            &&& b.0 <= b.1
            &&& b.2 <= b.3
        }),
    decreases k,
{
    if k > 0 {
        lemma_dry_bounds(cmds, (k - 1) as nat, table, dirs);
        let p = dry_pen(cmds, (k - 1) as nat, table, dirs);
        match action_of(table, cmds[k - 1]) {
            Action::Move => {},
            Action::Turn(d) => {
                lemma_mod_bound(p.2 + d as int, dirs.len() as int);
            },
            _ => {},
        }
    }
}

/// No symbol of the sequence maps to a stack action: the dry run models
/// such a sequence exactly.
pub open spec fn branch_free(cmds: Seq<char>, table: Seq<(char, Action)>) -> bool {
    forall|i: int|
        0 <= i < cmds.len() ==> !((#[trigger] action_of(table, cmds[i])) is Push) && !(action_of(
            table,
            cmds[i],
        ) is Pop)
}

/// The bounding box of a run contains every dry-run position along it.
pub proof fn lemma_bbox_contains(
    cmds: Seq<char>,
    k: nat,
    n: nat,
    table: Seq<(char, Action)>,
    dirs: Seq<(i32, i32)>,
)
    requires
        k <= n,
    ensures
        ({
            let b = dry_bbox(cmds, n, table, dirs);
            let p = dry_pen(cmds, k, table, dirs);
            &&& b.0 <= p.0 <= b.1
            &&& b.2 <= p.1 <= b.3
        }),
    decreases n,
{
    if n > 0 && k < n {
        lemma_bbox_contains(cmds, k, (n - 1) as nat, table, dirs);
    }
}

/// For a branch-free sequence, the replayed pen follows the dry-run pen:
/// same heading, and a position within the exactly-scaled dry position up
/// to one subpixel of truncation loss per command.
pub proof fn lemma_run_tracks_dry(
    cmds: Seq<char>,
    k: nat,
    table: Seq<(char, Action)>,
    dirs: Seq<(i32, i32)>,
    vp: Viewport,
)
    requires
        valid_dirs(dirs),
        branch_free(cmds, table),
        k <= cmds.len(),
        0 <= vp.scale,
    ensures
        ({
            let r = crate::turtle::run_spec(cmds, k, table, dirs, vp);
            let p = dry_pen(cmds, k, table, dirs);
            &&& r.h == p.2
            &&& p.0 * vp.scale - (k as int) * UNIT <= UNIT as int * (r.x - vp.ox)
            &&& UNIT as int * (r.x - vp.ox) <= p.0 * vp.scale + (k as int) * UNIT
            &&& p.1 * vp.scale - (k as int) * UNIT <= UNIT as int * (r.y - vp.oy)
            &&& UNIT as int * (r.y - vp.oy) <= p.1 * vp.scale + (k as int) * UNIT
        }),
    decreases k,
{
    let s = vp.scale as int;
    let u = UNIT as int;
    let r = crate::turtle::run_spec(cmds, k, table, dirs, vp);
    let p = dry_pen(cmds, k, table, dirs);
    if k == 0 {
        assert(r.x == vp.ox && r.y == vp.oy && r.h == 0);
        assert(p == (0int, 0int, 0int));
        assert(0 * s == 0) by (nonlinear_arith);
        assert(u * (r.x - vp.ox) == 0 && u * (r.y - vp.oy) == 0) by (nonlinear_arith)
            requires
                r.x == vp.ox,
                r.y == vp.oy,
        ;
    } else {
        let k1 = (k - 1) as nat;
        lemma_run_tracks_dry(cmds, k1, table, dirs, vp);
        lemma_dry_bounds(cmds, k1, table, dirs);
        let r1 = crate::turtle::run_spec(cmds, k1, table, dirs, vp);
        let p1 = dry_pen(cmds, k1, table, dirs);
        let a = action_of(table, cmds[k - 1]);
        assert(!(a is Push) && !(a is Pop));
        assert((k as int) * u == (k1 as int) * u + u) by (nonlinear_arith)
            requires
                k as int == k1 as int + 1,
        ;
        match a {
            Action::Move => {
                let dx = dirs[p1.2].0 as int;
                let dy = dirs[p1.2].1 as int;
                assert(r1.h == p1.2);
                assert(r.x == r1.x + scaled(dx, s) && r.y == r1.y + scaled(dy, s));
                assert(p.0 == p1.0 + dx && p.1 == p1.1 + dy && p.2 == p1.2);
                crate::geom::lemma_scaled_error(dx, s);
                crate::geom::lemma_scaled_error(dy, s);
                assert((p1.0 + dx) * s == p1.0 * s + dx * s) by (nonlinear_arith);
                assert((p1.1 + dy) * s == p1.1 * s + dy * s) by (nonlinear_arith);
                assert(u * (r.x - vp.ox) == u * (r1.x - vp.ox) + u * scaled(dx, s))
                    by (nonlinear_arith)
                    requires
                        r.x == r1.x + scaled(dx, s),
                ;
                assert(u * (r.y - vp.oy) == u * (r1.y - vp.oy) + u * scaled(dy, s))
                    by (nonlinear_arith)
                    requires
                        r.y == r1.y + scaled(dy, s),
                ;
            },
            Action::Turn(_d) => {
                assert(r.x == r1.x && r.y == r1.y && p.0 == p1.0 && p.1 == p1.1);
                assert(r.h == p.2);
            },
            Action::Idle => {
                assert(r == r1 && p == p1);
            },
            _ => {
                assert(false);
            },
        }
    }
}

/// Law: the fitted viewport contains the path. Replaying a branch-free
/// command sequence under the scale and origin that `fit` returns keeps the
/// pen, at every step, inside the margin box inflated by a truncation drift
/// of at most one subpixel per command. Stated for the inputs on which the
/// available area does not truncate the raw ratio to zero — where it does
/// (a near-half margin on a one-pixel canvas side), no positive scale can
/// fit the path at all and only the positivity floor holds.
pub proof fn lemma_fit_contains_path(
    cmds: Seq<char>,
    k: nat,
    table: Seq<(char, Action)>,
    dirs: Seq<(i32, i32)>,
    width: int,
    height: int,
    margin_pm: int,
    vp: Viewport,
)
    requires
        valid_dirs(dirs),
        branch_free(cmds, table),
        k <= cmds.len(),
        1 <= width,
        1 <= height,
        0 <= margin_pm,
        margin_pm < 500,
        1 <= fit_scale_raw(cmds, table, dirs, width, height, margin_pm),
        vp.scale == fit_scale(cmds, table, dirs, width, height, margin_pm),
        vp.ox == margin_sub(width, margin_pm) - scaled(
            dry_bbox(cmds, cmds.len(), table, dirs).0,
            vp.scale as int,
        ),
        vp.oy == margin_sub(height, margin_pm) - scaled(
            dry_bbox(cmds, cmds.len(), table, dirs).2,
            vp.scale as int,
        ),
    ensures
        ({
            let r = crate::turtle::run_spec(cmds, k, table, dirs, vp);
            &&& margin_sub(width, margin_pm) - k <= r.x
            &&& r.x <= margin_sub(width, margin_pm) + avail_sub(width, margin_pm) + k
            &&& margin_sub(height, margin_pm) - k <= r.y
            &&& r.y <= margin_sub(height, margin_pm) + avail_sub(height, margin_pm) + k
        }),
{
    let s = vp.scale as int;
    let u = UNIT as int;
    let b = dry_bbox(cmds, cmds.len(), table, dirs);
    let p = dry_pen(cmds, k, table, dirs);
    let r = crate::turtle::run_spec(cmds, k, table, dirs, vp);
    let mx = margin_sub(width, margin_pm);
    let ax = avail_sub(width, margin_pm);
    let my = margin_sub(height, margin_pm);
    let ay = avail_sub(height, margin_pm);
    let extx = extent_fb(b.0, b.1);
    let exty = extent_fb(b.2, b.3);
    assert(s == fit_scale_raw(cmds, table, dirs, width, height, margin_pm));
    lemma_run_tracks_dry(cmds, k, table, dirs, vp);
    lemma_bbox_contains(cmds, k, cmds.len(), table, dirs);
    crate::geom::lemma_scaled_error(b.0, s);
    crate::geom::lemma_scaled_error(b.2, s);
    // the available area is non-negative on both axes
    assert(0 <= width * SUBPIXELS as int * (1000 - 2 * margin_pm) && 0 <= height * SUBPIXELS
        as int * (1000 - 2 * margin_pm)) by (nonlinear_arith)
        requires
            1 <= width,
            1 <= height,
            0 <= margin_pm,
            margin_pm < 500,
    ;
    lemma_div_is_ordered(0, width * SUBPIXELS as int * (1000 - 2 * margin_pm), 1000);
    lemma_div_is_ordered(0, height * SUBPIXELS as int * (1000 - 2 * margin_pm), 1000);
    // the scaled extent fits the available area: s <= avail * UNIT / extent,
    // so s * extent <= avail * UNIT
    lemma_fundamental_div_mod(ax * u, extx);
    lemma_mod_bound(ax * u, extx);
    lemma_fundamental_div_mod(ay * u, exty);
    lemma_mod_bound(ay * u, exty);
    assert(s * extx <= ax * u) by (nonlinear_arith)
        requires
            s <= (ax * u) / extx,
            extx * ((ax * u) / extx) <= ax * u,
            0 < extx,
    ;
    assert(s * exty <= ay * u) by (nonlinear_arith)
        requires
            s <= (ay * u) / exty,
            exty * ((ay * u) / exty) <= ay * u,
            0 < exty,
    ;
    // the dry position sits inside the bounding box, so its offset from the
    // minimum corner, scaled, sits inside the scaled extent
    assert(0 <= (p.0 - b.0) * s && (p.0 - b.0) * s <= extx * s) by (nonlinear_arith)
        requires
            0 <= p.0 - b.0,
            p.0 - b.0 <= b.1 - b.0,
            b.1 - b.0 <= extx,
            0 <= s,
    ;
    assert(0 <= (p.1 - b.2) * s && (p.1 - b.2) * s <= exty * s) by (nonlinear_arith)
        requires
            0 <= p.1 - b.2,
            p.1 - b.2 <= b.3 - b.2,
            b.3 - b.2 <= exty,
            0 <= s,
    ;
    assert(extx * s == s * extx && exty * s == s * exty) by (nonlinear_arith);
    // assemble, in numerator units: u * r.x sits strictly between
    // u * (mx - k - 1) and u * (mx + ax + k + 1)
    assert(u * r.x == u * vp.ox + u * (r.x - vp.ox)) by (nonlinear_arith);
    assert(u * r.y == u * vp.oy + u * (r.y - vp.oy)) by (nonlinear_arith);
    assert(u * vp.ox == u * mx - u * scaled(b.0, s)) by (nonlinear_arith)
        requires
            vp.ox == mx - scaled(b.0, s),
    ;
    assert(u * vp.oy == u * my - u * scaled(b.2, s)) by (nonlinear_arith)
        requires
            vp.oy == my - scaled(b.2, s),
    ;
    assert(p.0 * s == b.0 * s + (p.0 - b.0) * s) by (nonlinear_arith);
    assert(p.1 * s == b.2 * s + (p.1 - b.2) * s) by (nonlinear_arith);
    assert(u * (mx - (k as int) - 1) == u * mx - ((k as int) + 1) * u) by (nonlinear_arith);
    assert(u * (mx + ax + (k as int) + 1) == u * mx + u * ax + ((k as int) + 1) * u)
        by (nonlinear_arith);
    assert(u * (my - (k as int) - 1) == u * my - ((k as int) + 1) * u) by (nonlinear_arith);
    assert(u * (my + ay + (k as int) + 1) == u * my + u * ay + ((k as int) + 1) * u)
        by (nonlinear_arith);
    assert(((k as int) + 1) * u == (k as int) * u + u) by (nonlinear_arith);
    assert(ax * u == u * ax && ay * u == u * ay) by (nonlinear_arith);
    assert(u * (mx - (k as int) - 1) < u * r.x && u * r.x < u * (mx + ax + (k as int) + 1));
    assert(u * (my - (k as int) - 1) < u * r.y && u * r.y < u * (my + ay + (k as int) + 1));
    assert(mx - (k as int) - 1 < r.x && r.x < mx + ax + (k as int) + 1) by (nonlinear_arith)
        requires
            u * (mx - (k as int) - 1) < u * r.x,
            u * r.x < u * (mx + ax + (k as int) + 1),
            0 < u,
    ;
    assert(my - (k as int) - 1 < r.y && r.y < my + ay + (k as int) + 1) by (nonlinear_arith)
        requires
            u * (my - (k as int) - 1) < u * r.y,
            u * r.y < u * (my + ay + (k as int) + 1),
            0 < u,
    ;
}

/// Fits the whole command sequence onto a canvas: dry-runs the sequence to
/// a bounding box, then returns the uniform scale and the origin that put
/// the box inside the margins. A degenerate extent uses the one-unit
/// fallback, and the scale is floored at one subpixel per step, so it is
/// always positive.
pub fn fit(
    commands: &Vec<char>,
    table: &ActionTable,
    dirs: &Vec<(i32, i32)>,
    width: usize,
    height: usize,
    margin_pm: usize,
) -> (vp: Viewport)
    requires
        valid_dirs(dirs@),
        commands@.len() <= MAX_COMMANDS,
        1 <= width <= CANVAS_MAX,
        1 <= height <= CANVAS_MAX,
        margin_pm < 500,
    ensures
        ({
            let b = dry_bbox(commands@, commands@.len(), table@, dirs@);
            let s = fit_scale(
                commands@,
                table@,
                dirs@,
                width as int,
                height as int,
                margin_pm as int,
            );
            &&& vp.scale == s
            &&& vp.scale >= 1
            &&& vp.ox == margin_sub(width as int, margin_pm as int) - scaled(b.0, s)
            &&& vp.oy == margin_sub(height as int, margin_pm as int) - scaled(b.2, s)
            &&& valid_viewport(vp)
        }),
{
    let n = commands.len();
    let nd = dirs.len();
    let mut x: i64 = 0;
    let mut y: i64 = 0;
    let mut h: usize = 0;
    let mut minx: i64 = 0;
    let mut maxx: i64 = 0;
    let mut miny: i64 = 0;
    let mut maxy: i64 = 0;
    for i in 0..n
        invariant
            n == commands@.len(),
            n <= MAX_COMMANDS,
            nd == dirs@.len(),
            valid_dirs(dirs@),
            (x as int, y as int, h as int) == dry_pen(commands@, i as nat, table@, dirs@),
            (minx as int, maxx as int, miny as int, maxy as int) == dry_bbox(
                commands@,
                i as nat,
                table@,
                dirs@,
            ),
            h < nd,
    {
        proof {
            lemma_dry_bounds(commands@, i as nat, table@, dirs@);
            lemma_dry_bounds(commands@, (i + 1) as nat, table@, dirs@);
            assert((i as int) * UNIT <= 0x10_0000 * 65536) by (nonlinear_arith)
                requires
                    0 <= i as int <= 0x10_0000,
            ;
            assert(((i + 1) as int) * UNIT <= 0x10_0000 * 65536) by (nonlinear_arith)
                requires
                    0 <= (i + 1) as int <= 0x10_0000,
            ;
        }
        let a = table.lookup(commands[i]);
        match a {
            Action::Move => {
                x = x + dirs[h].0 as i64;
                y = y + dirs[h].1 as i64;
                if x < minx {
                    minx = x;
                }
                if x > maxx {
                    maxx = x;
                }
                if y < miny {
                    miny = y;
                }
                if y > maxy {
                    maxy = y;
                }
            },
            Action::Turn(d) => {
                h = wrap_heading(h, d, nd);
            },
            _ => {},
        }
    }
    proof {
        lemma_dry_bounds(commands@, n as nat, table@, dirs@);
        assert((n as int) * UNIT <= 0x10_0000 * 65536) by (nonlinear_arith)
            requires
                0 <= n as int <= 0x10_0000,
        ;
    }
    // available drawing area and margin offsets, in subpixels
    proof {
        assert(width as int * SUBPIXELS as int * (1000 - 2 * margin_pm as int) <= 0x8000 * 256
            * 1000 && height as int * SUBPIXELS as int * (1000 - 2 * margin_pm as int) <= 0x8000
            * 256 * 1000 && width as int * SUBPIXELS as int * (margin_pm as int) <= 0x8000 * 256
            * 1000 && height as int * SUBPIXELS as int * (margin_pm as int) <= 0x8000 * 256
            * 1000 && 0 <= width as int * SUBPIXELS as int * (1000 - 2 * margin_pm as int) && 0
            <= height as int * SUBPIXELS as int * (1000 - 2 * margin_pm as int) && 0 <= width
            as int * SUBPIXELS as int * (margin_pm as int) && 0 <= height as int * SUBPIXELS
            as int * (margin_pm as int)) by (nonlinear_arith)
            requires
                1 <= width as int <= 0x8000,
                1 <= height as int <= 0x8000,
                0 <= margin_pm as int,
                (margin_pm as int) < 500,
        ;
    }
    let aw: u64 = (width as u64) * (SUBPIXELS as u64) * (1000 - 2 * margin_pm as u64) / 1000;
    let ah: u64 = (height as u64) * (SUBPIXELS as u64) * (1000 - 2 * margin_pm as u64) / 1000;
    let mw: u64 = (width as u64) * (SUBPIXELS as u64) * (margin_pm as u64) / 1000;
    let mh: u64 = (height as u64) * (SUBPIXELS as u64) * (margin_pm as u64) / 1000;
    proof {
        lemma_div_is_ordered(
            width as int * SUBPIXELS as int * (1000 - 2 * margin_pm as int),
            (0x8000 * 256 * 1000) as int,
            1000,
        );
        lemma_div_is_ordered(
            height as int * SUBPIXELS as int * (1000 - 2 * margin_pm as int),
            (0x8000 * 256 * 1000) as int,
            1000,
        );
        lemma_div_is_ordered(
            width as int * SUBPIXELS as int * (margin_pm as int),
            (0x8000 * 256 * 1000) as int,
            1000,
        );
        lemma_div_is_ordered(
            height as int * SUBPIXELS as int * (margin_pm as int),
            (0x8000 * 256 * 1000) as int,
            1000,
        );
        lemma_div_is_ordered(0, width as int * SUBPIXELS as int * (1000 - 2 * margin_pm as int), 1000);
        lemma_div_is_ordered(0, height as int * SUBPIXELS as int * (1000 - 2 * margin_pm as int), 1000);
        lemma_div_is_ordered(0, width as int * SUBPIXELS as int * (margin_pm as int), 1000);
        lemma_div_is_ordered(0, height as int * SUBPIXELS as int * (margin_pm as int), 1000);
        assert(aw <= 0x80_0000 && ah <= 0x80_0000 && mw <= 0x80_0000 && mh <= 0x80_0000);
    }
    // extents with the one-unit fallback
    let ex: i64 = if maxx - minx < UNIT {
        UNIT
    } else {
        maxx - minx
    };
    let ey: i64 = if maxy - miny < UNIT {
        UNIT
    } else {
        maxy - miny
    };
    let sxs: u64 = aw * (UNIT as u64) / (ex as u64);
    let sys: u64 = ah * (UNIT as u64) / (ey as u64);
    proof {
        assert(0 <= aw as int * UNIT as int && 0 <= ah as int * UNIT as int) by (nonlinear_arith)
            requires
                0 <= aw as int,
                0 <= ah as int,
        ;
        lemma_div_is_ordered_by_denominator(aw as int * UNIT as int, UNIT as int, ex as int);
        lemma_div_is_ordered_by_denominator(ah as int * UNIT as int, UNIT as int, ey as int);
        lemma_div_multiples_vanish(aw as int, UNIT as int);
        lemma_div_multiples_vanish(ah as int, UNIT as int);
        assert(aw as int * UNIT as int == UNIT as int * aw as int) by (nonlinear_arith);
        assert(ah as int * UNIT as int == UNIT as int * ah as int) by (nonlinear_arith);
        lemma_div_is_ordered(0, aw as int * UNIT as int, ex as int);
        lemma_div_is_ordered(0, ah as int * UNIT as int, ey as int);
    }
    let raw: i64 = if sxs <= sys {
        sxs as i64
    } else {
        sys as i64
    };
    // floor at one subpixel per step: the scale must stay positive
    let scale: i64 = if raw < 1 {
        1
    } else {
        raw
    };
    proof {
        lemma_scaled_bound(minx as int, scale as int, 0x10_0000_0000);
        lemma_scaled_bound(miny as int, scale as int, 0x10_0000_0000);
        assert(0x10_0000_0000 * scale <= 0x10_0000_0000 * 0x100_0000 && 0 <= 0x10_0000_0000
            * scale) by (nonlinear_arith)
            requires
                0 <= scale <= 0x100_0000,
        ;
        lemma_div_is_ordered(0x10_0000_0000 * scale, (0x10_0000_0000 * 0x100_0000) as int, UNIT as int);
        lemma_div_is_ordered(0, 0x10_0000_0000 * scale, UNIT as int);
    }
    let ox: i64 = mw as i64 - scale_fixed(minx, scale);
    let oy: i64 = mh as i64 - scale_fixed(miny, scale);
    Viewport { scale, ox, oy }
}

} // verus!
