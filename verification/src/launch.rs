//! From the command line to a new window: which command is started, and where its window goes.

use crate::apps::opt_text;
use crate::config::{
    apply_rule, can_apply_rule, resolve_terminal, rule_fits, ruled, Config, GestureConfig, Rule,
};
use crate::hyprland::payload;
use crate::pinned::Pinned;
use crate::stroke::{clamped_box_is_inside, inside, longer, Bbox};
use crate::text::decimal;
use vstd::prelude::*;

verus! {

/// The command that is started without asking: the terminal for `--term`, the pinned command for
/// `--default`, and else the one of `--spawn`. Without one the user picks.
pub fn preset_exec(
    term: bool,
    default: bool,
    spawn: Option<String>,
    cfg: &Config,
    env_terminal: Option<&str>,
    pinned: &Pinned,
) -> (r: Option<String>)
    ensures
        term ==> opt_text(r) == Some(
            match cfg.default_term {
                Some(t) => t@,
                None => match env_terminal {
                    Some(t) => t@,
                    None => "kitty"@,
                },
            },
        ),
        !term && default ==> opt_text(r) == pinned@,
        !term && !default ==> opt_text(r) == opt_text(spawn),
{
    if term {
        Some(resolve_terminal(cfg, env_terminal))
    } else if default {
        match pinned.exec() {
            Some(s) => Some(s.to_owned()),
            None => None,
        }
    } else {
        spawn
    }
}

/// Was the box drawn? A click leaves one without any extent.
pub open spec fn is_drawn(b: Bbox) -> bool {
    b.w > 0 || b.h > 0
}

/// The box of this size around a click.
pub open spec fn around_click(click: Bbox, w: u32, h: u32) -> Bbox {
    Bbox {
        x: (click.x - w / 2) as i32,
        y: (click.y - h / 2) as i32,
        w,
        h,
    }
}

/// The box that is asked for, before it is kept on the screen. A drawn box has at least the size
/// of the settings and follows the application's rule. A click gets the size of the settings, if
/// they have one, and no rule.
pub open spec fn wanted(b: Bbox, g: GestureConfig, rule: Option<Rule>) -> Bbox {
    if is_drawn(b) {
        ruled(b.spec_enforce_min(g.min_width, g.min_height), rule)
    } else {
        match (g.click_spawn_width, g.click_spawn_height) {
            (Some(w), Some(h)) => around_click(b, w, h),
            _ => b,
        }
    }
}

/// The corners that are computed on the way to `wanted` are 32-bit numbers.
pub open spec fn wanted_fits(b: Bbox, g: GestureConfig, rule: Option<Rule>) -> bool {
    if is_drawn(b) {
        &&& b.enforce_min_fits(g.min_width, g.min_height)
        &&& rule_fits(b.spec_enforce_min(g.min_width, g.min_height), rule)
    } else {
        match (g.click_spawn_width, g.click_spawn_height) {
            (Some(w), Some(h)) => {
                &&& i32::MIN <= b.x - w / 2
                &&& i32::MIN <= b.y - h / 2
            },
            _ => true,
        }
    }
}

/// The box that is asked for, before it is kept on the screen; none if its corner is out of range.
fn find_wanted(bbox: Bbox, exec: &str, cfg: &Config) -> (r: Option<Bbox>)
    ensures
        match r {
            Some(b) => {
                &&& wanted_fits(bbox, cfg.gesture, cfg.spec_rule_for(exec@))
                &&& b == wanted(bbox, cfg.gesture, cfg.spec_rule_for(exec@))
            },
            None => !wanted_fits(bbox, cfg.gesture, cfg.spec_rule_for(exec@)),
        },
{
    if bbox.w > 0 || bbox.h > 0 {
        if !bbox.can_enforce_min(cfg.gesture.min_width, cfg.gesture.min_height) {
            return None;
        }
        let grown = bbox.enforce_min(cfg.gesture.min_width, cfg.gesture.min_height);
        let rule = cfg.rule_for(exec);
        if can_apply_rule(grown, rule) {
            Some(apply_rule(grown, rule))
        } else {
            None
        }
    } else {
        match (cfg.gesture.click_spawn_width, cfg.gesture.click_spawn_height) {
            (Some(w), Some(h)) => {
                let x: i64 = bbox.x as i64 - (w / 2) as i64;
                let y: i64 = bbox.y as i64 - (h / 2) as i64;
                if x >= -0x8000_0000 && y >= -0x8000_0000 {
                    Some(Bbox { x: x as i32, y: y as i32, w, h })
                } else {
                    None
                }
            },
            _ => Some(bbox),
        }
    }
}

/// Can the window of `exec` be placed?
pub fn can_place(bbox: Bbox, exec: &str, cfg: &Config) -> (r: bool)
    ensures
        r == wanted_fits(bbox, cfg.gesture, cfg.spec_rule_for(exec@)),
{
    find_wanted(bbox, exec, cfg).is_some()
}

/// Where the window of `exec` goes: the box that is asked for, kept within the free area.
pub fn place(bbox: Bbox, exec: &str, safe: Bbox, cfg: &Config) -> (r: Bbox)
    requires
        wanted_fits(bbox, cfg.gesture, cfg.spec_rule_for(exec@)),
    ensures
        r == wanted(bbox, cfg.gesture, cfg.spec_rule_for(exec@)).spec_clamp_to_rect(safe),
{
    match find_wanted(bbox, exec, cfg) {
        Some(b) => b.clamp_to_rect(safe),
        None => bbox,
    }
}

/// Whatever was drawn, the window lies inside the free area.
pub proof fn placed_window_is_inside(b: Bbox, g: GestureConfig, rule: Option<Rule>, safe: Bbox)
    ensures
        inside(wanted(b, g, rule).spec_clamp_to_rect(safe), safe),
{
    clamped_box_is_inside(wanted(b, g, rule), safe);
}

/// A drag never makes a sliver: without a rule, the window has at least the least size of the
/// settings on each axis on which the free area has room for it.
pub proof fn drag_makes_no_sliver(b: Bbox, g: GestureConfig, safe: Bbox)
    requires
        is_drawn(b),
        g.min_width <= safe.w,
        g.min_height <= safe.h,
    ensures
        wanted(b, g, None).spec_clamp_to_rect(safe).w >= g.min_width,
        wanted(b, g, None).spec_clamp_to_rect(safe).h >= g.min_height,
{
    assert(wanted(b, g, None).w == longer(b.w as int, g.min_width as int));
}

/// A click opens a window of the size of the settings around it, whatever the rules say.
pub proof fn click_ignores_rules(b: Bbox, g: GestureConfig, rule: Option<Rule>, w: u32, h: u32)
    requires
        b.w == 0,
        b.h == 0,
        g.click_spawn_width == Some(w),
        g.click_spawn_height == Some(h),
    ensures
        wanted(b, g, rule) == around_click(b, w, h),
        wanted(b, g, rule) == wanted(b, g, None),
{
}

/// The window takes the drawn box as it is where it is large enough, lies inside the free area, and
/// no rule says otherwise.
pub proof fn window_takes_the_drawn_box(b: Bbox, g: GestureConfig, safe: Bbox)
    requires
        is_drawn(b),
        b.w >= g.min_width,
        b.h >= g.min_height,
        inside(b, safe),
    ensures
        wanted(b, g, None).spec_clamp_to_rect(safe) == b,
{
}

/// The window of a drag is told to open where it was placed, with the size it was given.
pub proof fn window_opens_where_it_is_placed(cmd: Seq<char>, b: Bbox)
    requires
        b.w > 0,
        b.h > 0,
        b.x >= 0,
        b.y >= 0,
    ensures
        payload(cmd, b) == "[float;move "@ + decimal(b.x as nat) + " "@ + decimal(b.y as nat)
            + ";size "@ + decimal(b.w as nat) + " "@ + decimal(b.h as nat) + "] "@ + cmd,
{
}

/// A drag, be it along one axis alone, gets the longest of what was drawn, the least size of the
/// settings and that of the rule, around the middle of what was drawn; a rule without cells is as
/// good as none where it asks for less.
pub proof fn drag_gets_the_longest_side(b: Bbox, g: GestureConfig, rule: Rule)
    requires
        b.w > 0 || b.h > 0,
        rule.cell_px is None,
        wanted_fits(b, g, Some(rule)),
    ensures
        ({
            let r = wanted(b, g, Some(rule));
            let w = match rule.min_width {
                Some(n) => n as int,
                None => 0,
            };
            let h = match rule.min_height {
                Some(n) => n as int,
                None => 0,
            };
            &&& r.w >= b.w && r.w >= g.min_width && r.w >= w
            &&& r.w == b.w || r.w == g.min_width || r.w == w
            &&& r.h >= b.h && r.h >= g.min_height && r.h >= h
            &&& r.h == b.h || r.h == g.min_height || r.h == h
            &&& 0 <= (2 * r.x + r.w) - (2 * b.x + b.w) <= 2
            &&& 0 <= (2 * r.y + r.h) - (2 * b.y + b.h) <= 2
            &&& w <= g.min_width && h <= g.min_height ==> r == wanted(b, g, None)
        }),
{
}

/// A click opens a window of the size of the settings with the click in its middle. Without both
/// sides of that size the window gets none, and opens at the click.
pub proof fn click_opens_in_the_middle(b: Bbox, g: GestureConfig, rule: Option<Rule>)
    requires
        b.w == 0,
        b.h == 0,
        wanted_fits(b, g, rule),
    ensures
        ({
            let r = wanted(b, g, rule);
            match (g.click_spawn_width, g.click_spawn_height) {
                (Some(w), Some(h)) => {
                    &&& r.w == w && r.h == h
                    &&& 0 <= (2 * r.x + r.w) - 2 * b.x <= 1
                    &&& 0 <= (2 * r.y + r.h) - 2 * b.y <= 1
                },
                _ => r == b,
            }
        }),
{
}

/// A window cannot be placed only where its corner is no longer a 32-bit number. So every box with
/// a corner on the screen can be placed, however large a size is asked for.
pub proof fn windows_on_the_screen_can_be_placed(b: Bbox, g: GestureConfig, rule: Option<Rule>)
    requires
        b.x >= 0,
        b.y >= 0,
    ensures
        wanted_fits(b, g, rule),
{
}

/// A window can be placed if and only if its corner stays a 32-bit number: that of a click's window
/// where it is centred on the click, and that of a drawn box where it grows to its least size. A
/// rule can only ask for more.
pub proof fn placing_fails_only_out_of_range(b: Bbox, g: GestureConfig, rule: Option<Rule>)
    ensures
        b.w == 0 && b.h == 0 ==> (wanted_fits(b, g, rule) <==> {
            match (g.click_spawn_width, g.click_spawn_height) {
                (Some(w), Some(h)) => b.x - w as int / 2 >= i32::MIN && b.y - h as int / 2
                    >= i32::MIN,
                _ => true,
            }
        }),
        b.w > 0 || b.h > 0 ==> (wanted_fits(b, g, None) <==> {
            &&& b.w < g.min_width ==> b.x - (g.min_width - b.w) / 2 >= i32::MIN
            &&& b.h < g.min_height ==> b.y - (g.min_height - b.h) / 2 >= i32::MIN
        }),
        wanted_fits(b, g, rule) ==> wanted_fits(b, g, None),
{
}

} // verus!
