//! What Hyprland is told and asked: the window it opens, and the area of the focused monitor that
//! no bar or dock covers.

use crate::json::{
    json_of, jsons, lists_values, member, member_of, object_values, parse, parsed, ref_jsons, Json,
};
use crate::stroke::Bbox;
use crate::text::{decimal, push_decimal, push_text};
use serde_json::Value;
use vstd::prelude::*;

verus! {

/// What is said where Hyprland does not run.
pub open spec fn not_running() -> Seq<char> {
    "Hyprland not detected.\n\nspawnhere needs a running Hyprland session — HYPRLAND_INSTANCE_SIGNATURE is unset.\nCheck your session:  echo $XDG_CURRENT_DESKTOP   (should contain \"Hyprland\")\n\nGNOME, KDE, Sway, and other compositors are not supported."@
}

/// Fails with a message unless the session has a Hyprland signature.
pub fn ensure_running(has_signature: bool) -> (r: Result<(), String>)
    ensures
        r is Ok <==> has_signature,
        r matches Err(m) ==> m@ == not_running(),
{
    if !has_signature {
        return Err(
            "Hyprland not detected.\n\nspawnhere needs a running Hyprland session — HYPRLAND_INSTANCE_SIGNATURE is unset.\nCheck your session:  echo $XDG_CURRENT_DESKTOP   (should contain \"Hyprland\")\n\nGNOME, KDE, Sway, and other compositors are not supported.".to_owned(),
        );
    }
    Ok(())
}

/// The number, or zero if it is negative.
pub open spec fn at_least_zero(n: int) -> nat {
    if n < 0 {
        0
    } else {
        n as nat
    }
}

/// The window rules for a box: floating, at its corner, and of its size.
pub open spec fn sized_rules(b: Bbox) -> Seq<char> {
    "[float;move "@ + decimal(at_least_zero(b.x as int)) + " "@ + decimal(
        at_least_zero(b.y as int),
    ) + ";size "@ + decimal(b.w as nat) + " "@ + decimal(b.h as nat) + "] "@
}

/// The window rules for a place alone: floating, at that corner.
pub open spec fn unsized_rules(b: Bbox) -> Seq<char> {
    "[float;move "@ + decimal(at_least_zero(b.x as int)) + " "@ + decimal(
        at_least_zero(b.y as int),
    ) + "] "@
}

/// The command with the rules its window opens by. A box without an area leaves the size to the
/// application.
pub open spec fn payload(cmd: Seq<char>, b: Bbox) -> Seq<char> {
    if b.w > 0 && b.h > 0 {
        sized_rules(b) + cmd
    } else {
        unsized_rules(b) + cmd
    }
}

fn push_place(out: &mut String, b: Bbox)
    ensures
        final(out)@ == old(out)@ + ("[float;move "@ + decimal(at_least_zero(b.x as int)) + " "@
            + decimal(at_least_zero(b.y as int))),
{
    push_text(out, "[float;move ");
    push_decimal(
        out,
        if b.x < 0 {
            0
        } else {
            b.x as u32
        },
    );
    push_text(out, " ");
    push_decimal(
        out,
        if b.y < 0 {
            0
        } else {
            b.y as u32
        },
    );
    assert(out@ =~= old(out)@ + ("[float;move "@ + decimal(at_least_zero(b.x as int)) + " "@
        + decimal(at_least_zero(b.y as int))));
}

/// The command with window rules for a place and a size.
pub(crate) fn sized_payload(cmd: &str, b: Bbox) -> (r: String)
    ensures
        r@ == sized_rules(b) + cmd@,
{
    let mut out = String::new();
    push_place(&mut out, b);
    push_text(&mut out, ";size ");
    push_decimal(&mut out, b.w);
    push_text(&mut out, " ");
    push_decimal(&mut out, b.h);
    push_text(&mut out, "] ");
    push_text(&mut out, cmd);
    assert(out@ =~= sized_rules(b) + cmd@);
    out
}

/// The arguments that make `hyprctl` dispatch a command.
pub open spec fn dispatch_args(args: Seq<String>, payload: Seq<char>) -> bool {
    &&& args.len() == 3
    &&& args[0]@ == "dispatch"@
    &&& args[1]@ == "exec"@
    &&& args[2]@ == payload
}

/// The arguments that make `hyprctl` open a floating window for `cmd`. The box is in coordinates of
/// the monitor.
pub fn spawn_floating(cmd: &str, bbox: Bbox) -> (r: Vec<String>)
    ensures
        dispatch_args(r@, payload(cmd@, bbox)),
{
    let text = if bbox.w > 0 && bbox.h > 0 {
        sized_payload(cmd, bbox)
    } else {
        let mut out = String::new();
        push_place(&mut out, bbox);
        push_text(&mut out, "] ");
        push_text(&mut out, cmd);
        assert(out@ =~= unsized_rules(bbox) + cmd@);
        out
    };
    let mut args: Vec<String> = Vec::new();
    args.push("dispatch".to_owned());
    args.push("exec".to_owned());
    args.push(text);
    args
}

/// A surface on the monitor, such as a bar, a dock or a wallpaper.
#[derive(Debug, Clone, Copy, PartialEq, Eq, Structural)]
pub struct Layer {
    pub x: i32,
    pub y: i32,
    pub w: u32,
    pub h: u32,
}

/// A monitor: its name, its rectangle among the monitors, and the widths that bars reserve on it.
#[derive(Debug)]
pub struct Monitor {
    pub name: String,
    pub x: i32,
    pub y: i32,
    pub w: u32,
    pub h: u32,
    pub reserved: Vec<u32>,
}

/// The values of a monitor.
pub struct MonitorModel {
    pub name: Seq<char>,
    pub x: i32,
    pub y: i32,
    pub w: u32,
    pub h: u32,
    pub reserved: Seq<u32>,
}

impl View for Monitor {
    type V = MonitorModel;

    open spec fn view(&self) -> MonitorModel {
        MonitorModel {
            name: self.name@,
            x: self.x,
            y: self.y,
            w: self.w,
            h: self.h,
            reserved: self.reserved@,
        }
    }
}

/// The largest reserved width of at most `size`; zero if there is none.
pub open spec fn fitting(reserved: Seq<u32>, size: u32) -> u32
    decreases reserved.len(),
{
    if reserved.len() == 0 {
        0
    } else {
        let before = fitting(reserved.drop_last(), size);
        if before < reserved.last() <= size {
            reserved.last()
        } else {
            before
        }
    }
}

/// How much of an edge a bar of this thickness takes: the largest reserved width that fits into it,
/// or else all of it.
pub open spec fn edge_size(reserved: Seq<u32>, size: u32) -> u32 {
    if fitting(reserved, size) > 0 {
        fitting(reserved, size)
    } else {
        size
    }
}

/// How much of an edge a bar of this thickness takes.
pub fn effective_edge_size(reserved: &Vec<u32>, layer_size: u32) -> (r: u32)
    ensures
        r == edge_size(reserved@, layer_size),
{
    let mut best: u32 = 0;
    let mut i: usize = 0;
    assert(reserved@.take(0) =~= Seq::<u32>::empty());
    while i < reserved.len()
        invariant
            i <= reserved@.len(),
            best == fitting(reserved@.take(i as int), layer_size),
        decreases reserved@.len() - i,
    {
        assert(reserved@.take(i + 1).drop_last() =~= reserved@.take(i as int));
        if best < reserved[i] && reserved[i] <= layer_size {
            best = reserved[i];
        }
        i += 1;
    }
    assert(reserved@.take(i as int) =~= reserved@);
    if best > 0 {
        best
    } else {
        layer_size
    }
}

/// An edge of a monitor.
#[derive(Debug, Clone, Copy, PartialEq, Eq, Structural)]
pub enum Edge {
    Top,
    Bottom,
    Left,
    Right,
}

/// Does the layer cover at least four fifths of the monitor?
pub open spec fn is_background(m: MonitorModel, l: Layer) -> bool {
    l.w * l.h * 5 >= m.w * m.h * 4
}

/// Is the layer at least nine tenths as wide as the monitor?
pub open spec fn spans_width(m: MonitorModel, l: Layer) -> bool {
    l.w * 10 >= m.w * 9
}

/// Is the layer at least nine tenths as high as the monitor?
pub open spec fn spans_height(m: MonitorModel, l: Layer) -> bool {
    l.h * 10 >= m.h * 9
}

/// The edge that a layer lies along: it spans that edge, touches it, and is no background.
pub open spec fn edge_of(m: MonitorModel, l: Layer) -> Option<Edge> {
    if l.w == 0 || l.h == 0 || is_background(m, l) {
        None
    } else if spans_width(m, l) {
        if l.y == m.y {
            Some(Edge::Top)
        } else if l.y + l.h == m.y + m.h {
            Some(Edge::Bottom)
        } else {
            None
        }
    } else if spans_height(m, l) {
        if l.x == m.x {
            Some(Edge::Left)
        } else if l.x + l.w == m.x + m.w {
            Some(Edge::Right)
        } else {
            None
        }
    } else {
        None
    }
}

/// How much of its edge a layer takes.
pub open spec fn depth(m: MonitorModel, l: Layer) -> u32 {
    if spans_width(m, l) {
        edge_size(m.reserved, l.h)
    } else {
        edge_size(m.reserved, l.w)
    }
}

/// Is `n` the most that any of the layers takes of the edge `e`?
pub open spec fn is_inset(m: MonitorModel, layers: Set<Layer>, e: Edge, n: u32) -> bool {
    &&& n == 0 || exists|l: Layer|
        layers.contains(l) && #[trigger] edge_of(m, l) == Some(e) && depth(m, l) == n
    &&& forall|l: Layer|
        layers.contains(l) && #[trigger] edge_of(m, l) == Some(e) ==> depth(m, l) <= n
}

/// The length that is left of `size`, if anything is.
pub open spec fn left_over(size: int, taken: int) -> u32 {
    if taken < size {
        (size - taken) as u32
    } else {
        0
    }
}

/// Is `b` the monitor without what its layers take of its edges, in coordinates of the monitor?
pub open spec fn is_free_area(m: MonitorModel, layers: Set<Layer>, b: Bbox) -> bool {
    exists|top: u32, bottom: u32, left: u32, right: u32|
        {
            &&& #[trigger] is_inset(m, layers, Edge::Top, top)
            &&& #[trigger] is_inset(m, layers, Edge::Bottom, bottom)
            &&& #[trigger] is_inset(m, layers, Edge::Left, left)
            &&& #[trigger] is_inset(m, layers, Edge::Right, right)
            &&& b == free_box(m, top, bottom, left, right)
        }
}

/// The monitor without these widths at its edges.
pub open spec fn free_box(m: MonitorModel, top: u32, bottom: u32, left: u32, right: u32) -> Bbox {
    Bbox {
        x: left as i32,
        y: top as i32,
        w: left_over(m.w as int, left + right),
        h: left_over(m.h as int, top + bottom),
    }
}

/// What the layers take of the top and of the left are numbers that a corner can have.
pub open spec fn area_fits(m: MonitorModel, layers: Set<Layer>) -> bool {
    &&& forall|n: u32| #[trigger] is_inset(m, layers, Edge::Top, n) ==> n <= i32::MAX
    &&& forall|n: u32| #[trigger] is_inset(m, layers, Edge::Left, n) ==> n <= i32::MAX
}

proof fn lemma_area(w: u32, h: u32)
    ensures
        0 <= w * h <= u64::MAX,
{
    assert(0 <= w * h <= 0xffff_ffff * 0xffff_ffff) by (nonlinear_arith)
        requires
            0 <= w <= 0xffff_ffff,
            0 <= h <= 0xffff_ffff,
    ;
}

/// The edge that a layer lies along, and how much of it the layer takes.
fn claim(m: &Monitor, l: Layer) -> (r: Option<(Edge, u32)>)
    ensures
        r is Some <==> edge_of(m@, l) is Some,
        r matches Some(c) ==> edge_of(m@, l) == Some(c.0) && c.1 == depth(m@, l),
{
    if l.w == 0 || l.h == 0 {
        return None;
    }
    proof {
        lemma_area(l.w, l.h);
        lemma_area(m.w, m.h);
    }
    let area: u128 = l.w as u128 * l.h as u128;
    let mon_area: u128 = m.w as u128 * m.h as u128;
    if area * 5 >= mon_area * 4 {
        return None;
    }
    if l.w as u64 * 10 >= m.w as u64 * 9 {
        let eff: u32 = effective_edge_size(&m.reserved, l.h);
        if l.y == m.y {
            Some((Edge::Top, eff))
        } else if l.y as i64 + l.h as i64 == m.y as i64 + m.h as i64 {
            Some((Edge::Bottom, eff))
        } else {
            None
        }
    } else if l.h as u64 * 10 >= m.h as u64 * 9 {
        let eff: u32 = effective_edge_size(&m.reserved, l.w);
        if l.x == m.x {
            Some((Edge::Left, eff))
        } else if l.x as i64 + l.w as i64 == m.x as i64 + m.w as i64 {
            Some((Edge::Right, eff))
        } else {
            None
        }
    } else {
        None
    }
}

/// The most that is taken of each edge, from the top and the bottom to the left and the right.
struct Insets {
    top: u32,
    bottom: u32,
    left: u32,
    right: u32,
}

/// Are these the insets of the layers?
spec fn insets_of(m: MonitorModel, layers: Set<Layer>, n: Insets) -> bool {
    &&& is_inset(m, layers, Edge::Top, n.top)
    &&& is_inset(m, layers, Edge::Bottom, n.bottom)
    &&& is_inset(m, layers, Edge::Left, n.left)
    &&& is_inset(m, layers, Edge::Right, n.right)
}

proof fn lemma_inset_grows(m: MonitorModel, layers: Set<Layer>, l: Layer, e: Edge, n: u32)
    requires
        is_inset(m, layers, e, n),
    ensures
        edge_of(m, l) == Some(e) && depth(m, l) > n ==> is_inset(
            m,
            layers.insert(l),
            e,
            depth(m, l),
        ),
        edge_of(m, l) != Some(e) || depth(m, l) <= n ==> is_inset(m, layers.insert(l), e, n),
{
    let more = layers.insert(l);
    assert(more.contains(l));
    if n > 0 {
        let k = choose|k: Layer|
            layers.contains(k) && #[trigger] edge_of(m, k) == Some(e) && depth(m, k) == n;
        assert(more.contains(k) && edge_of(m, k) == Some(e) && depth(m, k) == n);
    }
}

fn larger(a: u32, b: u32) -> (r: u32)
    ensures
        r == (if a < b {
            b
        } else {
            a
        }),
{
    if a < b {
        b
    } else {
        a
    }
}

fn measure(m: &Monitor, layers: &Vec<Layer>) -> (r: Insets)
    ensures
        insets_of(m@, layers@.to_set(), r),
{
    let mut n = Insets { top: 0, bottom: 0, left: 0, right: 0 };
    let mut i: usize = 0;
    assert(layers@.take(0).to_set() =~= Set::<Layer>::empty());
    while i < layers.len()
        invariant
            i <= layers@.len(),
            insets_of(m@, layers@.take(i as int).to_set(), n),
        decreases layers@.len() - i,
    {
        let l = layers[i];
        proof {
            let seen = layers@.take(i as int);
            assert(layers@.take(i + 1) =~= seen.push(l));
            assert(layers@.take(i + 1).to_set() =~= seen.to_set().insert(l)) by {
                lemma_push_to_set(seen, l);
            }
            lemma_inset_grows(m@, seen.to_set(), l, Edge::Top, n.top);
            lemma_inset_grows(m@, seen.to_set(), l, Edge::Bottom, n.bottom);
            lemma_inset_grows(m@, seen.to_set(), l, Edge::Left, n.left);
            lemma_inset_grows(m@, seen.to_set(), l, Edge::Right, n.right);
        }
        match claim(m, l) {
            Some((Edge::Top, eff)) => {
                n.top = larger(n.top, eff);
            },
            Some((Edge::Bottom, eff)) => {
                n.bottom = larger(n.bottom, eff);
            },
            Some((Edge::Left, eff)) => {
                n.left = larger(n.left, eff);
            },
            Some((Edge::Right, eff)) => {
                n.right = larger(n.right, eff);
            },
            None => {},
        }
        i += 1;
    }
    assert(layers@.take(i as int) =~= layers@);
    n
}

proof fn lemma_push_to_set(s: Seq<Layer>, l: Layer)
    ensures
        s.push(l).to_set() == s.to_set().insert(l),
{
    let more = s.push(l);
    assert forall|k: Layer| more.to_set().contains(k) <==> s.to_set().insert(l).contains(k) by {
        if s.contains(k) {
            let i = choose|i: int| 0 <= i < s.len() && s[i] == k;
            assert(more[i] == k);
        }
        assert(more[s.len() as int] == l);
        if more.contains(k) {
            let i = choose|i: int| 0 <= i < more.len() && more[i] == k;
            if i < s.len() {
                assert(s[i] == k);
            }
        }
    }
    assert(more.to_set() =~= s.to_set().insert(l));
}

fn free_part(size: u32, a: u32, b: u32) -> (r: u32)
    ensures
        r == left_over(size as int, a + b),
{
    size.saturating_sub(a).saturating_sub(b)
}

/// The monitor without what its layers take of its edges, in coordinates of the monitor.
pub fn safe_area(m: &Monitor, layers: &Vec<Layer>) -> (r: Bbox)
    requires
        area_fits(m@, layers@.to_set()),
    ensures
        is_free_area(m@, layers@.to_set(), r),
{
    match find_area(m, layers) {
        Some(b) => b,
        None => Bbox { x: 0, y: 0, w: m.w, h: m.h },
    }
}

proof fn lemma_one_inset(m: MonitorModel, layers: Set<Layer>, e: Edge, a: u32, b: u32)
    requires
        is_inset(m, layers, e, a),
        is_inset(m, layers, e, b),
    ensures
        a == b,
{
    if a > 0 {
        let k = choose|k: Layer|
            layers.contains(k) && #[trigger] edge_of(m, k) == Some(e) && depth(m, k) == a;
        assert(depth(m, k) <= b);
    }
    if b > 0 {
        let k = choose|k: Layer|
            layers.contains(k) && #[trigger] edge_of(m, k) == Some(e) && depth(m, k) == b;
        assert(depth(m, k) <= a);
    }
}

/// The monitor without what its layers take of its edges; none if its corner is out of range.
fn find_area(m: &Monitor, layers: &Vec<Layer>) -> (r: Option<Bbox>)
    ensures
        r is Some <==> area_fits(m@, layers@.to_set()),
        r matches Some(b) ==> is_free_area(m@, layers@.to_set(), b),
{
    let n = measure(m, layers);
    let ghost set = layers@.to_set();
    proof {
        assert forall|k: u32| #[trigger] is_inset(m@, set, Edge::Top, k) implies k == n.top by {
            lemma_one_inset(m@, set, Edge::Top, k, n.top);
        }
        assert forall|k: u32| #[trigger] is_inset(m@, set, Edge::Left, k) implies k == n.left by {
            lemma_one_inset(m@, set, Edge::Left, k, n.left);
        }
        assert(is_inset(m@, set, Edge::Top, n.top) && is_inset(m@, set, Edge::Left, n.left));
    }
    if n.top > 0x7fff_ffff || n.left > 0x7fff_ffff {
        return None;
    }
    Some(
        Bbox {
            x: n.left as i32,
            y: n.top as i32,
            w: free_part(m.w, n.left, n.right),
            h: free_part(m.h, n.top, n.bottom),
        },
    )
}

/// What a 32-bit unsigned number reads as when its bits are taken as a signed number.
pub open spec fn as_signed(n: int) -> int {
    if n <= i32::MAX {
        n
    } else {
        n - 0x1_0000_0000
    }
}

/// Reads the bits of `n` as a signed number.
fn to_signed(n: u32) -> (r: i32)
    ensures
        r == as_signed(n as int),
{
    if n <= 0x7fff_ffff {
        n as i32
    } else {
        -((0xffff_ffffu32 - n) as i32) - 1
    }
}

/// The number that the lowest 32 bits of `n` stand for.
pub open spec fn low32(n: int) -> u32 {
    (n % 0x1_0000_0000) as u32
}

fn low_bits(n: u64) -> (r: u32)
    ensures
        r == low32(n as int),
{
    (n % 0x1_0000_0000) as u32
}

fn low_signed(n: i64) -> (r: i32)
    ensures
        r == as_signed(low32(n as int) as int),
{
    let bits: u32 = if n >= 0 {
        (n % 0x1_0000_0000) as u32
    } else {
        let k: i64 = (-(n + 1)) % 0x1_0000_0000;
        (0xffff_ffff - k) as u32
    };
    to_signed(bits)
}

/// The whole number that a value holds, cut to 32 unsigned bits.
pub open spec fn unsigned_in(j: Json) -> Option<u32> {
    match j {
        Json::Int(n) => if 0 <= n <= u64::MAX {
            Some(low32(n))
        } else {
            None
        },
        _ => None,
    }
}

/// The whole number that a value holds, cut to 32 signed bits.
pub open spec fn signed_in(j: Json) -> Option<i32> {
    match j {
        Json::Int(n) => if i64::MIN <= n <= i64::MAX {
            Some(as_signed(low32(n) as int) as i32)
        } else {
            None
        },
        _ => None,
    }
}

fn read_unsigned(v: &Value) -> (r: Option<u32>)
    ensures
        r == unsigned_in(json_of(*v)),
{
    match v.as_u64() {
        Some(n) => Some(low_bits(n)),
        None => None,
    }
}

fn read_signed(v: &Value) -> (r: Option<i32>)
    ensures
        r == signed_in(json_of(*v)),
{
    match v.as_i64() {
        Some(n) => Some(low_signed(n)),
        None => None,
    }
}

/// Why the free area of the focused monitor is not known.
#[derive(Debug, Clone, Copy, PartialEq, Eq, Structural)]
pub enum SafeAreaError {
    /// The list of monitors is no JSON.
    BadMonitors,
    /// No monitor has the focus.
    NoFocusedMonitor,
    /// The focused monitor has no name.
    NoName,
    /// The focused monitor has no width.
    NoWidth,
    /// The focused monitor has no height.
    NoHeight,
    /// The focused monitor has no horizontal place.
    NoX,
    /// The focused monitor has no vertical place.
    NoY,
    /// A layer takes so much of an edge that the corner of the free area is no number of pixels.
    OutOfRange,
}

impl SafeAreaError {
    /// What is said of the error.
    pub open spec fn spec_message(self) -> Seq<char> {
        match self {
            SafeAreaError::BadMonitors => "parsing hyprctl JSON output"@,
            SafeAreaError::NoFocusedMonitor => "no focused monitor reported by hyprctl"@,
            SafeAreaError::NoName => "monitor name missing"@,
            SafeAreaError::NoWidth => "monitor width missing"@,
            SafeAreaError::NoHeight => "monitor height missing"@,
            SafeAreaError::NoX => "monitor x missing"@,
            SafeAreaError::NoY => "monitor y missing"@,
            SafeAreaError::OutOfRange => "layer out of range"@,
        }
    }

    /// What is said of the error.
    pub fn message(&self) -> (r: String)
        ensures
            r@ == self.spec_message(),
    {
        match self {
            SafeAreaError::BadMonitors => "parsing hyprctl JSON output".to_owned(),
            SafeAreaError::NoFocusedMonitor => "no focused monitor reported by hyprctl".to_owned(),
            SafeAreaError::NoName => "monitor name missing".to_owned(),
            SafeAreaError::NoWidth => "monitor width missing".to_owned(),
            SafeAreaError::NoHeight => "monitor height missing".to_owned(),
            SafeAreaError::NoX => "monitor x missing".to_owned(),
            SafeAreaError::NoY => "monitor y missing".to_owned(),
            SafeAreaError::OutOfRange => "layer out of range".to_owned(),
        }
    }
}

/// Does this monitor have the focus?
pub open spec fn is_focused(j: Json) -> bool {
    member_of(j, "focused"@) == Json::Bool(true)
}

/// The first of the items that has the focus.
pub open spec fn first_focused(items: Seq<Json>) -> Option<Json>
    decreases items.len(),
{
    if items.len() == 0 {
        None
    } else {
        match first_focused(items.drop_last()) {
            Some(j) => Some(j),
            None => if is_focused(items.last()) {
                Some(items.last())
            } else {
                None
            },
        }
    }
}

/// The focused monitor of a list of monitors.
pub open spec fn focused_in(monitors: Json) -> Option<Json> {
    match monitors {
        Json::Array(items) => first_focused(items),
        _ => None,
    }
}

/// The whole numbers that the items hold, cut to 32 unsigned bits; other items are left out.
pub open spec fn numbers_in(items: Seq<Json>) -> Seq<u32>
    decreases items.len(),
{
    if items.len() == 0 {
        Seq::empty()
    } else {
        let before = numbers_in(items.drop_last());
        match unsigned_in(items.last()) {
            Some(n) => before.push(n),
            None => before,
        }
    }
}

/// The widths that are reserved on a monitor, in the order they stand in.
pub open spec fn reserved_in(monitor: Json) -> Seq<u32> {
    match member_of(monitor, "reserved"@) {
        Json::Array(items) => numbers_in(items),
        _ => Seq::empty(),
    }
}

/// The monitor that a value describes.
pub open spec fn monitor_in(j: Json) -> Result<MonitorModel, SafeAreaError> {
    match member_of(j, "name"@) {
        Json::Str(name) => match unsigned_in(member_of(j, "width"@)) {
            None => Err(SafeAreaError::NoWidth),
            Some(w) => match unsigned_in(member_of(j, "height"@)) {
                None => Err(SafeAreaError::NoHeight),
                Some(h) => match signed_in(member_of(j, "x"@)) {
                    None => Err(SafeAreaError::NoX),
                    Some(x) => match signed_in(member_of(j, "y"@)) {
                        None => Err(SafeAreaError::NoY),
                        Some(y) => Ok(
                            MonitorModel { name, x, y, w, h, reserved: reserved_in(j) },
                        ),
                    },
                },
            },
        },
        _ => Err(SafeAreaError::NoName),
    }
}

/// The focused monitor that a list of monitors tells of.
pub open spec fn focused_monitor_in(monitors: Json) -> Result<MonitorModel, SafeAreaError> {
    match focused_in(monitors) {
        None => Err(SafeAreaError::NoFocusedMonitor),
        Some(j) => monitor_in(j),
    }
}

fn read_numbers(list: &Vec<Value>) -> (r: Vec<u32>)
    ensures
        r@ == numbers_in(jsons(list@)),
{
    let mut out: Vec<u32> = Vec::new();
    let mut i: usize = 0;
    let ghost items = jsons(list@);
    assert(items.take(0) =~= Seq::<Json>::empty());
    while i < list.len()
        invariant
            i <= list@.len(),
            items == jsons(list@),
            out@ == numbers_in(items.take(i as int)),
        decreases list@.len() - i,
    {
        proof {
            assert(items.take(i + 1).drop_last() =~= items.take(i as int));
            assert(items.take(i + 1).last() == json_of(list@[i as int]));
        }
        if let Some(n) = read_unsigned(&list[i]) {
            out.push(n);
        }
        i += 1;
    }
    assert(items.take(i as int) =~= items);
    out
}

fn read_monitor(v: &Value) -> (r: Result<Monitor, SafeAreaError>)
    ensures
        match monitor_in(json_of(*v)) {
            Ok(m) => r matches Ok(k) && k@ == m,
            Err(e) => r matches Err(k) && k == e,
        },
{
    let name = match member(v, "name").as_str() {
        Some(s) => s.to_owned(),
        None => {
            return Err(SafeAreaError::NoName);
        },
    };
    let w: u32 = match read_unsigned(member(v, "width")) {
        Some(n) => n,
        None => {
            return Err(SafeAreaError::NoWidth);
        },
    };
    let h: u32 = match read_unsigned(member(v, "height")) {
        Some(n) => n,
        None => {
            return Err(SafeAreaError::NoHeight);
        },
    };
    let x: i32 = match read_signed(member(v, "x")) {
        Some(n) => n,
        None => {
            return Err(SafeAreaError::NoX);
        },
    };
    let y: i32 = match read_signed(member(v, "y")) {
        Some(n) => n,
        None => {
            return Err(SafeAreaError::NoY);
        },
    };
    let reserved = match member(v, "reserved").as_array() {
        Some(list) => read_numbers(list),
        None => Vec::new(),
    };
    Ok(Monitor { name, x, y, w, h, reserved })
}

fn has_focus(v: &Value) -> (r: bool)
    ensures
        r == is_focused(json_of(*v)),
{
    match member(v, "focused").as_bool() {
        Some(b) => b,
        None => false,
    }
}

/// The focused monitor of a list of monitors.
fn find_focused(v: &Value) -> (r: Option<&Value>)
    ensures
        match focused_in(json_of(*v)) {
            Some(j) => r matches Some(k) && json_of(*k) == j,
            None => r is None,
        },
{
    let list = match v.as_array() {
        Some(a) => a,
        None => {
            return None;
        },
    };
    let ghost items = jsons(list@);
    let mut i: usize = 0;
    assert(items.take(0) =~= Seq::<Json>::empty());
    while i < list.len()
        invariant
            i <= list@.len(),
            items == jsons(list@),
            json_of(*v) == Json::Array(items),
            first_focused(items.take(i as int)) is None,
        decreases list@.len() - i,
    {
        proof {
            assert(items.take(i + 1).drop_last() =~= items.take(i as int));
            assert(items.take(i + 1).last() == json_of(list@[i as int]));
        }
        if has_focus(&list[i]) {
            proof {
                lemma_focus_stays(items, i + 1);
            }
            return Some(&list[i]);
        }
        i += 1;
    }
    assert(items.take(i as int) =~= items);
    None
}

fn read_focused_monitor(v: &Value) -> (r: Result<Monitor, SafeAreaError>)
    ensures
        match focused_monitor_in(json_of(*v)) {
            Ok(m) => r matches Ok(k) && k@ == m,
            Err(e) => r matches Err(k) && k == e,
        },
{
    match find_focused(v) {
        Some(m) => read_monitor(m),
        None => Err(SafeAreaError::NoFocusedMonitor),
    }
}

/// What has been found stays found among more items.
proof fn lemma_focus_stays(items: Seq<Json>, n: int)
    requires
        0 <= n <= items.len(),
        first_focused(items.take(n)) is Some,
    ensures
        first_focused(items) == first_focused(items.take(n)),
    decreases items.len(),
{
    if n == items.len() {
        assert(items.take(n) =~= items);
    } else {
        assert(items.drop_last().take(n) =~= items.take(n));
        lemma_focus_stays(items.drop_last(), n);
    }
}

/// The number, or zero where there is none.
pub open spec fn signed_or_zero(j: Json) -> i32 {
    match signed_in(j) {
        Some(n) => n,
        None => 0,
    }
}

/// The number, or zero where there is none.
pub open spec fn unsigned_or_zero(j: Json) -> u32 {
    match unsigned_in(j) {
        Some(n) => n,
        None => 0,
    }
}

/// The layer that a value describes. What it does not say is zero.
pub open spec fn layer_in(j: Json) -> Layer {
    Layer {
        x: signed_or_zero(member_of(j, "x"@)),
        y: signed_or_zero(member_of(j, "y"@)),
        w: unsigned_or_zero(member_of(j, "w"@)),
        h: unsigned_or_zero(member_of(j, "h"@)),
    }
}

/// Is this layer among those of one level?
pub open spec fn on_level(level: Json, l: Layer) -> bool {
    match level {
        Json::Array(items) => exists|i: int|
            0 <= i < items.len() && layer_in(#[trigger] items[i]) == l,
        _ => false,
    }
}

/// The layers of the monitor of this name, on all its levels.
pub open spec fn layers_in(root: Json, name: Seq<char>) -> Set<Layer> {
    match member_of(member_of(root, name), "levels"@) {
        Json::Object(levels) => Set::new(
            |l: Layer|
                exists|k: Seq<char>| levels.contains_key(k) && on_level(#[trigger] levels[k], l),
        ),
        _ => Set::empty(),
    }
}

fn read_layer(v: &Value) -> (r: Layer)
    ensures
        r == layer_in(json_of(*v)),
{
    let x: i32 = match read_signed(member(v, "x")) {
        Some(n) => n,
        None => 0,
    };
    let y: i32 = match read_signed(member(v, "y")) {
        Some(n) => n,
        None => 0,
    };
    let w: u32 = match read_unsigned(member(v, "w")) {
        Some(n) => n,
        None => 0,
    };
    let h: u32 = match read_unsigned(member(v, "h")) {
        Some(n) => n,
        None => 0,
    };
    Layer { x, y, w, h }
}

/// Adds the layers of one level.
fn read_level(v: &Value, out: &mut Vec<Layer>)
    ensures
        forall|l: Layer| #[trigger]
            final(out)@.contains(l) <==> old(out)@.contains(l) || on_level(json_of(*v), l),
{
    let list = match v.as_array() {
        Some(a) => a,
        None => {
            return ;
        },
    };
    let ghost items = jsons(list@);
    let mut i: usize = 0;
    while i < list.len()
        invariant
            i <= list@.len(),
            items == jsons(list@),
            json_of(*v) == Json::Array(items),
            forall|l: Layer| #[trigger]
                out@.contains(l) <==> old(out)@.contains(l) || exists|k: int|
                    0 <= k < i && layer_in(#[trigger] items[k]) == l,
        decreases list@.len() - i,
    {
        let layer = read_layer(&list[i]);
        let ghost before = out@;
        out.push(layer);
        proof {
            assert(items[i as int] == json_of(list@[i as int]));
            assert forall|l: Layer| #[trigger]
                out@.contains(l) <==> old(out)@.contains(l) || exists|k: int|
                    0 <= k < i + 1 && layer_in(#[trigger] items[k]) == l by {
                lemma_push_contains(before, layer, l);
                if l == layer {
                    assert(layer_in(items[i as int]) == l);
                }
            }
        }
        i += 1;
    }
}

proof fn lemma_push_contains(s: Seq<Layer>, l: Layer, k: Layer)
    ensures
        s.push(l).contains(k) <==> s.contains(k) || k == l,
{
    lemma_push_to_set(s, l);
    assert(s.push(l).to_set().contains(k) <==> s.to_set().insert(l).contains(k));
}

fn read_layers(root: &Value, name: &str) -> (r: Vec<Layer>)
    ensures
        r@.to_set() == layers_in(json_of(*root), name@),
{
    let levels = member(member(root, name), "levels");
    let mut out: Vec<Layer> = Vec::new();
    let ghost all = layers_in(json_of(*root), name@);
    if let Some(list) = object_values(levels) {
        let ghost m = json_of(*levels)->Object_0;
        let ghost items = ref_jsons(list@);
        let mut i: usize = 0;
        while i < list.len()
            invariant
                i <= list@.len(),
                items == ref_jsons(list@),
                forall|l: Layer| #[trigger]
                    out@.contains(l) <==> exists|k: int|
                        0 <= k < i && on_level(#[trigger] items[k], l),
            decreases list@.len() - i,
        {
            let ghost before = out@;
            read_level(list[i], &mut out);
            proof {
                assert(items[i as int] == json_of(*list@[i as int]));
                assert forall|l: Layer| #[trigger]
                    out@.contains(l) <==> exists|k: int|
                        0 <= k < i + 1 && on_level(#[trigger] items[k], l) by {
                    assert(out@.contains(l) <==> before.contains(l) || on_level(
                        items[i as int],
                        l,
                    ));
                }
            }
            i += 1;
        }
        proof {
            assert(lists_values(items, m));
            assert forall|l: Layer| out@.to_set().contains(l) <==> all.contains(l) by {
                if out@.contains(l) {
                    let k = choose|k: int|
                        0 <= k < items.len() && on_level(#[trigger] items[k], l);
                    let key = choose|key: Seq<char>|
                        m.contains_key(key) && #[trigger] m[key] == items[k];
                    assert(on_level(m[key], l));
                }
                if all.contains(l) {
                    let key = choose|key: Seq<char>|
                        m.contains_key(key) && on_level(#[trigger] m[key], l);
                    assert(items.contains(m[key]));
                    let k = choose|k: int| 0 <= k < items.len() && items[k] == m[key];
                    assert(on_level(items[k], l));
                }
            }
        }
    }
    assert(out@.to_set() =~= all);
    out
}

/// The layers that `hyprctl` told of, if it told of any.
pub open spec fn layers_told(layers: Option<&[u8]>) -> Option<Json> {
    match layers {
        Some(bytes) => parsed(bytes@),
        None => None,
    }
}

/// The free area of the focused monitor, in coordinates of that monitor. The arguments are what
/// `hyprctl monitors -j` and `hyprctl layers -j` printed, the latter if it could be run. Without
/// layers that can be read, all of the monitor is free.
pub fn focused_monitor_safe_area(monitors: &[u8], layers: Option<&[u8]>) -> (r: Result<
    Bbox,
    SafeAreaError,
>)
    ensures
        match parsed(monitors@) {
            None => r == Err::<Bbox, SafeAreaError>(SafeAreaError::BadMonitors),
            Some(ms) => match focused_monitor_in(ms) {
                Err(e) => r == Err::<Bbox, SafeAreaError>(e),
                Ok(m) => match layers_told(layers) {
                    None => r == Ok::<Bbox, SafeAreaError>(
                        (Bbox { x: 0, y: 0, w: m.w, h: m.h }),
                    ),
                    Some(root) => if area_fits(m, layers_in(root, m.name)) {
                        r matches Ok(b) && is_free_area(m, layers_in(root, m.name), b)
                    } else {
                        r == Err::<Bbox, SafeAreaError>(SafeAreaError::OutOfRange)
                    },
                },
            },
        },
{
    let root = match parse(monitors) {
        Ok(v) => v,
        Err(_) => {
            return Err(SafeAreaError::BadMonitors);
        },
    };
    let m = match read_focused_monitor(&root) {
        Ok(m) => m,
        Err(e) => {
            return Err(e);
        },
    };
    let full = Bbox { x: 0, y: 0, w: m.w, h: m.h };
    let bytes = match layers {
        Some(b) => b,
        None => {
            return Ok(full);
        },
    };
    let tree = match parse(bytes) {
        Ok(v) => v,
        Err(_) => {
            return Ok(full);
        },
    };
    let list = read_layers(&tree, m.name.as_str());
    match find_area(&m, &list) {
        Some(b) => Ok(b),
        None => Err(SafeAreaError::OutOfRange),
    }
}

/// The whole number that a value holds, if it has 64 signed bits.
pub open spec fn whole_in(j: Json) -> Option<int> {
    match j {
        Json::Int(n) => if i64::MIN <= n <= i64::MAX {
            Some(n)
        } else {
            None
        },
        _ => None,
    }
}

/// Do both values hold the same whole number?
pub open spec fn same_whole(a: Json, b: Json) -> bool {
    whole_in(a) is Some && whole_in(a) == whole_in(b)
}

/// The item of an array; null where there is none, or no array.
pub open spec fn item_of(j: Json, i: int) -> Json {
    match j {
        Json::Array(items) => if 0 <= i < items.len() {
            items[i]
        } else {
            Json::Null
        },
        _ => Json::Null,
    }
}

/// Is the window shown on the monitor? It is on the monitor and on its workspace, and is neither
/// unmapped nor hidden.
pub open spec fn is_shown(client: Json, monitor: Json) -> bool {
    &&& same_whole(member_of(client, "monitor"@), member_of(monitor, "id"@))
    &&& same_whole(
        member_of(member_of(client, "workspace"@), "id"@),
        member_of(member_of(monitor, "activeWorkspace"@), "id"@),
    )
    &&& member_of(client, "mapped"@) != Json::Bool(false)
    &&& member_of(client, "hidden"@) != Json::Bool(true)
}

/// The rectangle of a window, in coordinates of the monitor; none where something is missing or the
/// place is out of range.
pub open spec fn client_rect(client: Json, monitor: Json) -> Option<Bbox> {
    let at = member_of(client, "at"@);
    let size = member_of(client, "size"@);
    match (
        signed_in(item_of(at, 0)),
        signed_in(item_of(at, 1)),
        unsigned_in(item_of(size, 0)),
        unsigned_in(item_of(size, 1)),
        signed_in(member_of(monitor, "x"@)),
        signed_in(member_of(monitor, "y"@)),
    ) {
        (Some(x), Some(y), Some(w), Some(h), Some(mx), Some(my)) => if i32::MIN <= x - mx
            <= i32::MAX && i32::MIN <= y - my <= i32::MAX {
            Some(Bbox { x: (x - mx) as i32, y: (y - my) as i32, w, h })
        } else {
            None
        },
        _ => None,
    }
}

/// The rectangles of the windows that are shown on a monitor, in the order they are listed in.
pub open spec fn shown_rects(clients: Seq<Json>, monitor: Json) -> Seq<Bbox>
    decreases clients.len(),
{
    if clients.len() == 0 {
        Seq::empty()
    } else {
        let before = shown_rects(clients.drop_last(), monitor);
        match client_rect(clients.last(), monitor) {
            Some(b) => if is_shown(clients.last(), monitor) {
                before.push(b)
            } else {
                before
            },
            None => before,
        }
    }
}

/// The windows that `hyprctl` told of on the focused monitor; none where something cannot be read.
pub open spec fn clients_told(monitors: Option<Json>, clients: Option<Json>) -> Seq<Bbox> {
    match (monitors, clients) {
        (Some(ms), Some(Json::Array(items))) => match focused_in(ms) {
            Some(monitor) => shown_rects(items, monitor),
            None => Seq::empty(),
        },
        _ => Seq::empty(),
    }
}

fn hold_same_whole(a: &Value, b: &Value) -> (r: bool)
    ensures
        r == same_whole(json_of(*a), json_of(*b)),
{
    match (a.as_i64(), b.as_i64()) {
        (Some(m), Some(n)) => m == n,
        _ => false,
    }
}

fn read_shown(client: &Value, monitor: &Value) -> (r: bool)
    ensures
        r == is_shown(json_of(*client), json_of(*monitor)),
{
    if !hold_same_whole(member(client, "monitor"), member(monitor, "id")) {
        return false;
    }
    if !hold_same_whole(
        member(member(client, "workspace"), "id"),
        member(member(monitor, "activeWorkspace"), "id"),
    ) {
        return false;
    }
    if let Some(mapped) = member(client, "mapped").as_bool() {
        if !mapped {
            return false;
        }
    }
    match member(client, "hidden").as_bool() {
        Some(hidden) => !hidden,
        None => true,
    }
}

fn read_signed_item(v: &Value, i: usize) -> (r: Option<i32>)
    ensures
        r == signed_in(item_of(json_of(*v), i as int)),
{
    match v.as_array() {
        Some(a) => {
            if i < a.len() {
                assert(jsons(a@)[i as int] == json_of(a@[i as int]));
                read_signed(&a[i])
            } else {
                None
            }
        },
        None => None,
    }
}

fn read_unsigned_item(v: &Value, i: usize) -> (r: Option<u32>)
    ensures
        r == unsigned_in(item_of(json_of(*v), i as int)),
{
    match v.as_array() {
        Some(a) => {
            if i < a.len() {
                assert(jsons(a@)[i as int] == json_of(a@[i as int]));
                read_unsigned(&a[i])
            } else {
                None
            }
        },
        None => None,
    }
}

fn read_client(client: &Value, monitor: &Value) -> (r: Option<Bbox>)
    ensures
        r == client_rect(json_of(*client), json_of(*monitor)),
{
    let at = member(client, "at");
    let size = member(client, "size");
    match (
        read_signed_item(at, 0),
        read_signed_item(at, 1),
        read_unsigned_item(size, 0),
        read_unsigned_item(size, 1),
        read_signed(member(monitor, "x")),
        read_signed(member(monitor, "y")),
    ) {
        (Some(x), Some(y), Some(w), Some(h), Some(mx), Some(my)) => {
            match (x.checked_sub(mx), y.checked_sub(my)) {
                (Some(x), Some(y)) => Some(Bbox { x, y, w, h }),
                _ => None,
            }
        },
        _ => None,
    }
}

/// The windows that are shown on the focused monitor, in coordinates of that monitor. The arguments
/// are what `hyprctl monitors -j` and `hyprctl clients -j` printed. Without windows that can be read
/// there are none.
pub fn focused_monitor_clients(monitors: &[u8], clients: &[u8]) -> (r: Vec<Bbox>)
    ensures
        r@ == clients_told(parsed(monitors@), parsed(clients@)),
{
    let mut out: Vec<Bbox> = Vec::new();
    let (root, tree) = match (parse(monitors), parse(clients)) {
        (Ok(m), Ok(c)) => (m, c),
        _ => {
            return out;
        },
    };
    let list = match tree.as_array() {
        Some(a) => a,
        None => {
            return out;
        },
    };
    let monitor = match find_focused(&root) {
        Some(m) => m,
        None => {
            return out;
        },
    };
    let ghost items = jsons(list@);
    let ghost m = json_of(*monitor);
    let mut i: usize = 0;
    assert(items.take(0) =~= Seq::<Json>::empty());
    while i < list.len()
        invariant
            i <= list@.len(),
            items == jsons(list@),
            m == json_of(*monitor),
            out@ == shown_rects(items.take(i as int), m),
        decreases list@.len() - i,
    {
        proof {
            assert(items.take(i + 1).drop_last() =~= items.take(i as int));
            assert(items.take(i + 1).last() == json_of(list@[i as int]));
        }
        if let Some(b) = read_client(&list[i], monitor) {
            if read_shown(&list[i], monitor) {
                out.push(b);
            }
        }
        i += 1;
    }
    assert(items.take(i as int) =~= items);
    out
}

/// Only windows that are shown on the monitor are listed, and all of them whose rectangles are known.
pub proof fn listed_windows_are_shown(clients: Seq<Json>, monitor: Json)
    ensures
        forall|k: int|
            0 <= k < shown_rects(clients, monitor).len() ==> exists|i: int|
                0 <= i < clients.len() && is_shown(#[trigger] clients[i], monitor) && client_rect(
                    clients[i],
                    monitor,
                ) == Some(#[trigger] shown_rects(clients, monitor)[k]),
        forall|i: int|
            0 <= i < clients.len() && is_shown(#[trigger] clients[i], monitor) && client_rect(
                clients[i],
                monitor,
            ) is Some ==> shown_rects(clients, monitor).contains(
                client_rect(clients[i], monitor)->0,
            ),
    decreases clients.len(),
{
    if clients.len() > 0 {
        let front = clients.drop_last();
        let before = shown_rects(front, monitor);
        let all = shown_rects(clients, monitor);
        listed_windows_are_shown(front, monitor);
        assert forall|k: int| 0 <= k < all.len() implies exists|i: int|
            0 <= i < clients.len() && is_shown(#[trigger] clients[i], monitor) && client_rect(
                clients[i],
                monitor,
            ) == Some(#[trigger] all[k]) by {
            if k < before.len() {
                assert(all[k] == before[k]);
                let i = choose|i: int|
                    0 <= i < front.len() && is_shown(#[trigger] front[i], monitor) && client_rect(
                        front[i],
                        monitor,
                    ) == Some(before[k]);
                assert(clients[i] == front[i]);
            } else {
                assert(clients[clients.len() - 1] == clients.last());
            }
        }
        assert forall|i: int|
            0 <= i < clients.len() && is_shown(#[trigger] clients[i], monitor) && client_rect(
                clients[i],
                monitor,
            ) is Some implies all.contains(client_rect(clients[i], monitor)->0) by {
            let b = client_rect(clients[i], monitor)->0;
            if i < front.len() {
                assert(front[i] == clients[i]);
                let k = choose|k: int| 0 <= k < before.len() && before[k] == b;
                assert(all[k] == b);
            } else {
                assert(all[all.len() - 1] == b);
            }
        }
    }
}

/// A monitor has one free area, in whatever order its layers are listed.
pub proof fn free_area_is_unique(m: MonitorModel, layers: Set<Layer>, a: Bbox, b: Bbox)
    requires
        is_free_area(m, layers, a),
        is_free_area(m, layers, b),
    ensures
        a == b,
{
    let (t1, b1, l1, r1) = choose|top: u32, bottom: u32, left: u32, right: u32|
        {
            &&& #[trigger] is_inset(m, layers, Edge::Top, top)
            &&& #[trigger] is_inset(m, layers, Edge::Bottom, bottom)
            &&& #[trigger] is_inset(m, layers, Edge::Left, left)
            &&& #[trigger] is_inset(m, layers, Edge::Right, right)
            &&& a == free_box(m, top, bottom, left, right)
        };
    let (t2, b2, l2, r2) = choose|top: u32, bottom: u32, left: u32, right: u32|
        {
            &&& #[trigger] is_inset(m, layers, Edge::Top, top)
            &&& #[trigger] is_inset(m, layers, Edge::Bottom, bottom)
            &&& #[trigger] is_inset(m, layers, Edge::Left, left)
            &&& #[trigger] is_inset(m, layers, Edge::Right, right)
            &&& b == free_box(m, top, bottom, left, right)
        };
    lemma_one_inset(m, layers, Edge::Top, t1, t2);
    lemma_one_inset(m, layers, Edge::Bottom, b1, b2);
    lemma_one_inset(m, layers, Edge::Left, l1, l2);
    lemma_one_inset(m, layers, Edge::Right, r1, r2);
}

/// Without layers along its edges, all of the monitor is free.
pub proof fn bare_monitor_is_free(m: MonitorModel, layers: Set<Layer>, b: Bbox)
    requires
        forall|l: Layer| #[trigger] layers.contains(l) ==> edge_of(m, l) is None,
        is_free_area(m, layers, b),
    ensures
        b == (Bbox { x: 0, y: 0, w: m.w, h: m.h }),
{
    assert(is_inset(m, layers, Edge::Top, 0));
    assert(is_inset(m, layers, Edge::Bottom, 0));
    assert(is_inset(m, layers, Edge::Left, 0));
    assert(is_inset(m, layers, Edge::Right, 0));
    let full = free_box(m, 0, 0, 0, 0);
    assert(is_free_area(m, layers, full));
    free_area_is_unique(m, layers, b, full);
}

/// A wallpaper takes nothing: a layer of the monitor's own size lies along no edge.
pub proof fn wallpaper_takes_nothing(m: MonitorModel, l: Layer)
    requires
        l.w >= m.w,
        l.h >= m.h,
    ensures
        edge_of(m, l) is None,
{
    assert(l.w * l.h >= m.w * m.h) by (nonlinear_arith)
        requires
            l.w >= m.w,
            l.h >= m.h,
            m.w >= 0,
            m.h >= 0,
    ;
}

/// A layer along no edge leaves the free area as it was: one without any extent, one that covers
/// four fifths of the monitor or more, and one that spans less than nine tenths of both sides.
pub proof fn idle_layer_takes_nothing(m: MonitorModel, layers: Set<Layer>, l: Layer, b: Bbox)
    requires
        edge_of(m, l) is None || l.w == 0 || l.h == 0 || 5 * (l.w * l.h) >= 4 * (m.w * m.h) || (10
            * l.w < 9 * m.w && 10 * l.h < 9 * m.h),
    ensures
        edge_of(m, l) is None,
        is_free_area(m, layers, b) <==> is_free_area(m, layers.insert(l), b),
        area_fits(m, layers) <==> area_fits(m, layers.insert(l)),
{
    let more = layers.insert(l);
    assert forall|e: Edge, n: u32| #[trigger]
        is_inset(m, layers, e, n) <==> is_inset(m, more, e, n) by {
        lemma_same_inset(m, layers, l, e, n);
    }
    assert forall|e: Edge, n: u32| #[trigger]
        is_inset(m, more, e, n) <==> is_inset(m, layers, e, n) by {
        lemma_same_inset(m, layers, l, e, n);
    }
    if is_free_area(m, layers, b) {
        let (top, bottom, left, right) = choose|top: u32, bottom: u32, left: u32, right: u32|
            {
                &&& #[trigger] is_inset(m, layers, Edge::Top, top)
                &&& #[trigger] is_inset(m, layers, Edge::Bottom, bottom)
                &&& #[trigger] is_inset(m, layers, Edge::Left, left)
                &&& #[trigger] is_inset(m, layers, Edge::Right, right)
                &&& b == free_box(m, top, bottom, left, right)
            };
        assert(is_inset(m, more, Edge::Top, top) && is_inset(m, more, Edge::Bottom, bottom)
            && is_inset(m, more, Edge::Left, left) && is_inset(m, more, Edge::Right, right));
    }
    if is_free_area(m, more, b) {
        let (top, bottom, left, right) = choose|top: u32, bottom: u32, left: u32, right: u32|
            {
                &&& #[trigger] is_inset(m, more, Edge::Top, top)
                &&& #[trigger] is_inset(m, more, Edge::Bottom, bottom)
                &&& #[trigger] is_inset(m, more, Edge::Left, left)
                &&& #[trigger] is_inset(m, more, Edge::Right, right)
                &&& b == free_box(m, top, bottom, left, right)
            };
        assert(is_inset(m, layers, Edge::Top, top) && is_inset(m, layers, Edge::Bottom, bottom)
            && is_inset(m, layers, Edge::Left, left) && is_inset(m, layers, Edge::Right, right));
    }
}

/// A layer along no edge takes nothing of any.
proof fn lemma_same_inset(m: MonitorModel, layers: Set<Layer>, l: Layer, e: Edge, n: u32)
    requires
        edge_of(m, l) is None,
    ensures
        is_inset(m, layers, e, n) <==> is_inset(m, layers.insert(l), e, n),
{
    let more = layers.insert(l);
    if is_inset(m, layers, e, n) {
        lemma_inset_grows(m, layers, l, e, n);
    }
    if is_inset(m, more, e, n) {
        if n > 0 {
            let k = choose|k: Layer|
                more.contains(k) && #[trigger] edge_of(m, k) == Some(e) && depth(m, k) == n;
            assert(layers.contains(k));
        }
        assert forall|k: Layer|
            layers.contains(k) && #[trigger] edge_of(m, k) == Some(e) implies depth(m, k) <= n by {
            assert(more.contains(k));
        }
    }
}

/// A bar takes no more than its own thickness, and takes a reserved width if one fits into it.
pub proof fn bar_takes_at_most_itself(reserved: Seq<u32>, size: u32)
    ensures
        edge_size(reserved, size) <= size,
        edge_size(reserved, size) == size || reserved.contains(edge_size(reserved, size)),
        forall|i: int|
            0 <= i < reserved.len() && 0 < #[trigger] reserved[i] <= size ==> reserved[i]
                <= edge_size(reserved, size),
{
    lemma_fitting(reserved, size);
}

proof fn lemma_fitting(reserved: Seq<u32>, size: u32)
    ensures
        fitting(reserved, size) <= size,
        fitting(reserved, size) > 0 ==> reserved.contains(fitting(reserved, size)),
        forall|i: int|
            0 <= i < reserved.len() && #[trigger] reserved[i] <= size ==> reserved[i] <= fitting(
                reserved,
                size,
            ),
    decreases reserved.len(),
{
    if reserved.len() > 0 {
        let front = reserved.drop_last();
        lemma_fitting(front, size);
        assert forall|i: int| 0 <= i < reserved.len() && #[trigger] reserved[i]
            <= size implies reserved[i] <= fitting(reserved, size) by {
            if i < front.len() {
                assert(front[i] == reserved[i]);
            }
        }
        if front.contains(fitting(front, size)) {
            let k = choose|k: int| 0 <= k < front.len() && front[k] == fitting(front, size);
            assert(reserved[k] == fitting(front, size));
        }
        assert(reserved[reserved.len() - 1] == reserved.last());
    }
}

/// The free area lies inside the monitor.
pub proof fn free_area_is_inside(m: MonitorModel, layers: Set<Layer>, b: Bbox)
    requires
        is_free_area(m, layers, b),
        area_fits(m, layers),
    ensures
        0 <= b.x && b.x + b.w <= m.w,
        0 <= b.y && b.y + b.h <= m.h,
{
    let (top, bottom, left, right) = choose|top: u32, bottom: u32, left: u32, right: u32|
        {
            &&& #[trigger] is_inset(m, layers, Edge::Top, top)
            &&& #[trigger] is_inset(m, layers, Edge::Bottom, bottom)
            &&& #[trigger] is_inset(m, layers, Edge::Left, left)
            &&& #[trigger] is_inset(m, layers, Edge::Right, right)
            &&& b == free_box(m, top, bottom, left, right)
        };
    lemma_inset_bound(m, layers, Edge::Top, top);
    lemma_inset_bound(m, layers, Edge::Left, left);
}

/// What is taken of an edge is no more than the monitor has.
proof fn lemma_inset_bound(m: MonitorModel, layers: Set<Layer>, e: Edge, n: u32)
    requires
        is_inset(m, layers, e, n),
    ensures
        e == Edge::Top ==> n <= m.h,
        e == Edge::Left ==> n <= m.w,
{
    if n > 0 {
        let l = choose|l: Layer|
            layers.contains(l) && #[trigger] edge_of(m, l) == Some(e) && depth(m, l) == n;
        bar_takes_at_most_itself(m.reserved, l.h);
        bar_takes_at_most_itself(m.reserved, l.w);
        if spans_width(m, l) && l.h > m.h {
            assert(l.w * l.h * 5 >= m.w * m.h * 4) by (nonlinear_arith)
                requires
                    l.w * 10 >= m.w * 9,
                    l.h > m.h,
                    m.w >= 0,
                    m.h >= 0,
            ;
        }
    }
}

/// A layer lies along an edge where it touches that edge of the monitor, wherever the monitor
/// stands. Of the layers that have an extent and cover less than four fifths of the monitor, the
/// ones that span nine tenths of its width lie along its top if their top is its top, and along its
/// bottom if their bottom is its bottom; the ones that span nine tenths of its height lie along its
/// left and right in the same way. No other layer lies along an edge.
pub proof fn layers_lie_along_the_edge_they_touch(m: MonitorModel, l: Layer)
    ensures
        ({
            let bar = l.w > 0 && l.h > 0 && 5 * (l.w * l.h) < 4 * (m.w * m.h);
            let wide = 10 * l.w >= 9 * m.w;
            let tall = 10 * l.h >= 9 * m.h;
            &&& edge_of(m, l) == Some(Edge::Top) <==> bar && wide && l.y == m.y
            &&& edge_of(m, l) == Some(Edge::Bottom) <==> bar && wide && l.y + l.h == m.y + m.h
            &&& edge_of(m, l) == Some(Edge::Left) <==> bar && tall && l.x == m.x
            &&& edge_of(m, l) == Some(Edge::Right) <==> bar && tall && l.x + l.w == m.x + m.w
            &&& !bar || !(wide || tall) ==> edge_of(m, l) is None
        }),
{
    if 5 * (l.w * l.h) < 4 * (m.w * m.h) {
        lemma_bar_spans_one_side(m, l);
    }
    if l.w > 0 && 10 * l.w >= 9 * m.w && l.y == m.y && l.y + l.h == m.y + m.h {
        assert(5 * (l.w * l.h) >= 4 * (m.w * m.h)) by (nonlinear_arith)
            requires
                10 * l.w >= 9 * m.w,
                l.h == m.h,
                m.w >= 0,
                m.h >= 0,
        ;
    }
    if l.h > 0 && 10 * l.h >= 9 * m.h && l.x == m.x && l.x + l.w == m.x + m.w {
        assert(5 * (l.w * l.h) >= 4 * (m.w * m.h)) by (nonlinear_arith)
            requires
                10 * l.h >= 9 * m.h,
                l.w == m.w,
                m.w >= 0,
                m.h >= 0,
        ;
    }
}

/// What spans nine tenths of both sides covers four fifths of the monitor.
proof fn lemma_bar_spans_one_side(m: MonitorModel, l: Layer)
    requires
        5 * (l.w * l.h) < 4 * (m.w * m.h),
    ensures
        10 * l.w < 9 * m.w || 10 * l.h < 9 * m.h,
{
    if 10 * l.w >= 9 * m.w && 10 * l.h >= 9 * m.h {
        assert(5 * (l.w * l.h) >= 4 * (m.w * m.h)) by (nonlinear_arith)
            requires
                10 * l.w >= 9 * m.w,
                10 * l.h >= 9 * m.h,
                m.w >= 0,
                m.h >= 0,
        ;
    }
}

/// Two monitors whose layers go over into one another, edge by edge and with the same depths, have
/// the same taken from the two edges.
proof fn lemma_inset_carries(
    m: MonitorModel,
    layers: Set<Layer>,
    e: Edge,
    there: MonitorModel,
    others: Set<Layer>,
    f: Edge,
    go: spec_fn(Layer) -> Layer,
    back: spec_fn(Layer) -> Layer,
    n: u32,
)
    requires
        forall|l: Layer|
            layers.contains(l) && #[trigger] edge_of(m, l) == Some(e) ==> {
                &&& others.contains(go(l))
                &&& edge_of(there, go(l)) == Some(f)
                &&& depth(there, go(l)) == depth(m, l)
            },
        forall|k: Layer|
            others.contains(k) && #[trigger] edge_of(there, k) == Some(f) ==> {
                &&& layers.contains(back(k))
                &&& edge_of(m, back(k)) == Some(e)
                &&& depth(m, back(k)) == depth(there, k)
            },
        is_inset(m, layers, e, n),
    ensures
        is_inset(there, others, f, n),
{
    if n > 0 {
        let l = choose|l: Layer|
            layers.contains(l) && #[trigger] edge_of(m, l) == Some(e) && depth(m, l) == n;
        assert(others.contains(go(l)) && edge_of(there, go(l)) == Some(f));
    }
}

/// Where the monitor stands does not matter: moved with all of its layers by the same offset, it
/// has the same free area.
pub proof fn free_area_moves_with_the_monitor(
    m: MonitorModel,
    layers: Set<Layer>,
    moved: Set<Layer>,
    dx: int,
    dy: int,
    b: Bbox,
)
    requires
        i32::MIN <= m.x + dx <= i32::MAX,
        i32::MIN <= m.y + dy <= i32::MAX,
        forall|l: Layer| #[trigger]
            layers.contains(l) ==> {
                &&& i32::MIN <= l.x + dx <= i32::MAX
                &&& i32::MIN <= l.y + dy <= i32::MAX
                &&& moved.contains(Layer { x: (l.x + dx) as i32, y: (l.y + dy) as i32, ..l })
            },
        forall|k: Layer| #[trigger]
            moved.contains(k) ==> {
                &&& i32::MIN <= k.x - dx <= i32::MAX
                &&& i32::MIN <= k.y - dy <= i32::MAX
                &&& layers.contains(Layer { x: (k.x - dx) as i32, y: (k.y - dy) as i32, ..k })
            },
    ensures
        is_free_area(m, layers, b) <==> is_free_area(
            MonitorModel { x: (m.x + dx) as i32, y: (m.y + dy) as i32, ..m },
            moved,
            b,
        ),
{
    let there = MonitorModel { x: (m.x + dx) as i32, y: (m.y + dy) as i32, ..m };
    if is_free_area(m, layers, b) {
        lemma_moved_area(m, layers, moved, dx, dy, b);
    }
    if is_free_area(there, moved, b) {
        lemma_moved_area(there, moved, layers, -dx, -dy, b);
        assert((MonitorModel { x: (there.x - dx) as i32, y: (there.y - dy) as i32, ..there }) == m);
    }
}

/// One direction of the move.
proof fn lemma_moved_area(
    m: MonitorModel,
    layers: Set<Layer>,
    moved: Set<Layer>,
    dx: int,
    dy: int,
    b: Bbox,
)
    requires
        i32::MIN <= m.x + dx <= i32::MAX,
        i32::MIN <= m.y + dy <= i32::MAX,
        forall|l: Layer|
            layers.contains(l) && (#[trigger] edge_of(m, l)) is Some ==> {
                &&& i32::MIN <= l.x + dx <= i32::MAX
                &&& i32::MIN <= l.y + dy <= i32::MAX
                &&& moved.contains(Layer { x: (l.x + dx) as i32, y: (l.y + dy) as i32, ..l })
            },
        forall|k: Layer|
            moved.contains(k) && (#[trigger] edge_of(
                MonitorModel { x: (m.x + dx) as i32, y: (m.y + dy) as i32, ..m },
                k,
            )) is Some ==> {
                &&& i32::MIN <= k.x - dx <= i32::MAX
                &&& i32::MIN <= k.y - dy <= i32::MAX
                &&& layers.contains(Layer { x: (k.x - dx) as i32, y: (k.y - dy) as i32, ..k })
            },
        is_free_area(m, layers, b),
    ensures
        is_free_area(
            MonitorModel { x: (m.x + dx) as i32, y: (m.y + dy) as i32, ..m },
            moved,
            b,
        ),
{
    let there = MonitorModel { x: (m.x + dx) as i32, y: (m.y + dy) as i32, ..m };
    let go = |l: Layer| Layer { x: (l.x + dx) as i32, y: (l.y + dy) as i32, ..l };
    let back = |k: Layer| Layer { x: (k.x - dx) as i32, y: (k.y - dy) as i32, ..k };
    let (top, bottom, left, right) = choose|top: u32, bottom: u32, left: u32, right: u32|
        {
            &&& #[trigger] is_inset(m, layers, Edge::Top, top)
            &&& #[trigger] is_inset(m, layers, Edge::Bottom, bottom)
            &&& #[trigger] is_inset(m, layers, Edge::Left, left)
            &&& #[trigger] is_inset(m, layers, Edge::Right, right)
            &&& b == free_box(m, top, bottom, left, right)
        };
    lemma_inset_carries(m, layers, Edge::Top, there, moved, Edge::Top, go, back, top);
    lemma_inset_carries(m, layers, Edge::Bottom, there, moved, Edge::Bottom, go, back, bottom);
    lemma_inset_carries(m, layers, Edge::Left, there, moved, Edge::Left, go, back, left);
    lemma_inset_carries(m, layers, Edge::Right, there, moved, Edge::Right, go, back, right);
    assert(b == free_box(there, top, bottom, left, right));
}

/// The two axes are treated alike: with the monitor and all of its layers turned over the diagonal,
/// the free area turns with them.
pub proof fn free_area_turns_with_the_monitor(
    m: MonitorModel,
    layers: Set<Layer>,
    turned: Set<Layer>,
    b: Bbox,
)
    requires
        forall|l: Layer| #[trigger]
            layers.contains(l) ==> turned.contains(Layer { x: l.y, y: l.x, w: l.h, h: l.w }),
        forall|k: Layer| #[trigger]
            turned.contains(k) ==> layers.contains(Layer { x: k.y, y: k.x, w: k.h, h: k.w }),
        is_free_area(m, layers, b),
    ensures
        is_free_area(
            MonitorModel { x: m.y, y: m.x, w: m.h, h: m.w, ..m },
            turned,
            Bbox { x: b.y, y: b.x, w: b.h, h: b.w },
        ),
{
    let there = MonitorModel { x: m.y, y: m.x, w: m.h, h: m.w, ..m };
    let go = |l: Layer| Layer { x: l.y, y: l.x, w: l.h, h: l.w };
    let (top, bottom, left, right) = choose|top: u32, bottom: u32, left: u32, right: u32|
        {
            &&& #[trigger] is_inset(m, layers, Edge::Top, top)
            &&& #[trigger] is_inset(m, layers, Edge::Bottom, bottom)
            &&& #[trigger] is_inset(m, layers, Edge::Left, left)
            &&& #[trigger] is_inset(m, layers, Edge::Right, right)
            &&& b == free_box(m, top, bottom, left, right)
        };
    assert forall|l: Layer|
        {
            &&& (#[trigger] edge_of(m, l) == Some(Edge::Top) ==> edge_of(there, go(l)) == Some(
                Edge::Left,
            ))
            &&& (edge_of(m, l) == Some(Edge::Bottom) ==> edge_of(there, go(l)) == Some(
                Edge::Right,
            ))
            &&& (edge_of(m, l) == Some(Edge::Left) ==> edge_of(there, go(l)) == Some(Edge::Top))
            &&& (edge_of(m, l) == Some(Edge::Right) ==> edge_of(there, go(l)) == Some(
                Edge::Bottom,
            ))
            &&& (edge_of(m, l) is Some ==> depth(there, go(l)) == depth(m, l))
        } by {
        lemma_turned_edge(m, l);
    }
    assert forall|k: Layer|
        {
            &&& (#[trigger] edge_of(there, k) == Some(Edge::Left) ==> edge_of(m, go(k)) == Some(
                Edge::Top,
            ))
            &&& (edge_of(there, k) == Some(Edge::Right) ==> edge_of(m, go(k)) == Some(
                Edge::Bottom,
            ))
            &&& (edge_of(there, k) == Some(Edge::Top) ==> edge_of(m, go(k)) == Some(Edge::Left))
            &&& (edge_of(there, k) == Some(Edge::Bottom) ==> edge_of(m, go(k)) == Some(
                Edge::Right,
            ))
            &&& (edge_of(there, k) is Some ==> depth(m, go(k)) == depth(there, k))
        } by {
        lemma_turned_edge(there, k);
        assert(m == (MonitorModel { x: there.y, y: there.x, w: there.h, h: there.w, ..there }));
    }
    lemma_inset_carries(m, layers, Edge::Top, there, turned, Edge::Left, go, go, top);
    lemma_inset_carries(m, layers, Edge::Bottom, there, turned, Edge::Right, go, go, bottom);
    lemma_inset_carries(m, layers, Edge::Left, there, turned, Edge::Top, go, go, left);
    lemma_inset_carries(m, layers, Edge::Right, there, turned, Edge::Bottom, go, go, right);
    assert(free_box(there, left, right, top, bottom) == (Bbox { x: b.y, y: b.x, w: b.h, h: b.w }));
}

/// A layer turned over the diagonal lies along the turned edge, and is as deep.
proof fn lemma_turned_edge(m: MonitorModel, l: Layer)
    ensures
        ({
            let there = MonitorModel { x: m.y, y: m.x, w: m.h, h: m.w, ..m };
            let k = Layer { x: l.y, y: l.x, w: l.h, h: l.w };
            &&& edge_of(m, l) == Some(Edge::Top) ==> edge_of(there, k) == Some(Edge::Left)
            &&& edge_of(m, l) == Some(Edge::Bottom) ==> edge_of(there, k) == Some(Edge::Right)
            &&& edge_of(m, l) == Some(Edge::Left) ==> edge_of(there, k) == Some(Edge::Top)
            &&& edge_of(m, l) == Some(Edge::Right) ==> edge_of(there, k) == Some(Edge::Bottom)
            &&& edge_of(m, l) is Some ==> depth(there, k) == depth(m, l)
        }),
{
    let there = MonitorModel { x: m.y, y: m.x, w: m.h, h: m.w, ..m };
    let k = Layer { x: l.y, y: l.x, w: l.h, h: l.w };
    assert(l.w * l.h == l.h * l.w) by (nonlinear_arith);
    assert(m.w * m.h == m.h * m.w) by (nonlinear_arith);
    layers_lie_along_the_edge_they_touch(m, l);
    layers_lie_along_the_edge_they_touch(there, k);
    if 5 * (l.w * l.h) < 4 * (m.w * m.h) {
        lemma_bar_spans_one_side(m, l);
    }
}

/// The free area of a monitor with one bar is the monitor without what the bar takes, on the side
/// on which the bar lies.
pub proof fn lone_bar_is_taken_off(m: MonitorModel, l: Layer, b: Bbox)
    requires
        l.w > 0,
        l.h > 0,
        5 * (l.w * l.h) < 4 * (m.w * m.h),
        is_free_area(m, Set::empty().insert(l), b),
    ensures
        ({
            let across = edge_size(m.reserved, l.h);
            let along = edge_size(m.reserved, l.w);
            &&& 10 * l.w >= 9 * m.w && l.y == m.y && across <= i32::MAX ==> b.x == 0 && b.y == across
                && b.w == m.w && b.y + b.h == m.h
            &&& 10 * l.w >= 9 * m.w && l.y + l.h == m.y + m.h ==> b.x == 0 && b.y == 0 && b.w == m.w
                && b.h + across == m.h
            &&& 10 * l.h >= 9 * m.h && l.x == m.x && along <= i32::MAX ==> b.x == along && b.y == 0
                && b.h == m.h && b.x + b.w == m.w
            &&& 10 * l.h >= 9 * m.h && l.x + l.w == m.x + m.w ==> b.x == 0 && b.y == 0 && b.h == m.h
                && b.w + along == m.w
        }),
{
    let layers = Set::empty().insert(l);
    layers_lie_along_the_edge_they_touch(m, l);
    lemma_bar_spans_one_side(m, l);
    bar_takes_at_most_itself(m.reserved, l.h);
    bar_takes_at_most_itself(m.reserved, l.w);
    lemma_bar_is_thin(m, l);
    let n = depth(m, l);
    let top = if edge_of(m, l) == Some(Edge::Top) {
        n
    } else {
        0
    };
    let bottom = if edge_of(m, l) == Some(Edge::Bottom) {
        n
    } else {
        0
    };
    let left = if edge_of(m, l) == Some(Edge::Left) {
        n
    } else {
        0
    };
    let right = if edge_of(m, l) == Some(Edge::Right) {
        n
    } else {
        0
    };
    assert(layers.contains(l));
    assert(is_inset(m, layers, Edge::Top, top));
    assert(is_inset(m, layers, Edge::Bottom, bottom));
    assert(is_inset(m, layers, Edge::Left, left));
    assert(is_inset(m, layers, Edge::Right, right));
    free_area_is_unique(m, layers, b, free_box(m, top, bottom, left, right));
}

/// A bar along an edge is thinner than the monitor.
proof fn lemma_bar_is_thin(m: MonitorModel, l: Layer)
    requires
        5 * (l.w * l.h) < 4 * (m.w * m.h),
    ensures
        10 * l.w >= 9 * m.w ==> l.h < m.h,
        10 * l.h >= 9 * m.h ==> l.w < m.w,
{
    if 10 * l.w >= 9 * m.w && l.h >= m.h {
        assert(5 * (l.w * l.h) >= 4 * (m.w * m.h)) by (nonlinear_arith)
            requires
                10 * l.w >= 9 * m.w,
                l.h >= m.h,
                m.w >= 0,
                m.h >= 0,
        ;
    }
    if 10 * l.h >= 9 * m.h && l.w >= m.w {
        assert(5 * (l.w * l.h) >= 4 * (m.w * m.h)) by (nonlinear_arith)
            requires
                10 * l.h >= 9 * m.h,
                l.w >= m.w,
                m.w >= 0,
                m.h >= 0,
        ;
    }
}

/// Every bar lies outside the free area, as far as what it takes goes: the free area begins behind
/// the bars at the top and the left, and ends before the bars at the bottom and the right.
pub proof fn free_area_keeps_clear_of_bars(m: MonitorModel, layers: Set<Layer>, l: Layer, b: Bbox)
    requires
        is_free_area(m, layers, b),
        area_fits(m, layers),
        layers.contains(l),
        l.w > 0,
        l.h > 0,
        5 * (l.w * l.h) < 4 * (m.w * m.h),
    ensures
        ({
            let across = edge_size(m.reserved, l.h);
            let along = edge_size(m.reserved, l.w);
            &&& 10 * l.w >= 9 * m.w && l.y == m.y ==> across <= b.y
            &&& 10 * l.w >= 9 * m.w && l.y + l.h == m.y + m.h && b.h > 0 ==> b.y + b.h + across
                <= m.h
            &&& 10 * l.h >= 9 * m.h && l.x == m.x ==> along <= b.x
            &&& 10 * l.h >= 9 * m.h && l.x + l.w == m.x + m.w && b.w > 0 ==> b.x + b.w + along
                <= m.w
        }),
{
    layers_lie_along_the_edge_they_touch(m, l);
    lemma_bar_spans_one_side(m, l);
    let (top, bottom, left, right) = choose|top: u32, bottom: u32, left: u32, right: u32|
        {
            &&& #[trigger] is_inset(m, layers, Edge::Top, top)
            &&& #[trigger] is_inset(m, layers, Edge::Bottom, bottom)
            &&& #[trigger] is_inset(m, layers, Edge::Left, left)
            &&& #[trigger] is_inset(m, layers, Edge::Right, right)
            &&& b == free_box(m, top, bottom, left, right)
        };
    assert(edge_of(m, l) is Some ==> depth(m, l) == if 10 * l.w >= 9 * m.w {
        edge_size(m.reserved, l.h)
    } else {
        edge_size(m.reserved, l.w)
    });
}

/// Nothing but bars is taken off: each side of the free area is the monitor's own side, or lies
/// where some bar along that side takes its part.
pub proof fn free_area_reaches_the_bars(m: MonitorModel, layers: Set<Layer>, b: Bbox)
    requires
        is_free_area(m, layers, b),
        area_fits(m, layers),
    ensures
        b.y == 0 || exists|l: Layer| #[trigger]
            layers.contains(l) && l.y == m.y && 10 * l.w >= 9 * m.w && edge_size(m.reserved, l.h)
                == b.y,
        b.x == 0 || exists|l: Layer| #[trigger]
            layers.contains(l) && l.x == m.x && 10 * l.h >= 9 * m.h && edge_size(m.reserved, l.w)
                == b.x,
        b.h == 0 || b.y + b.h == m.h || exists|l: Layer| #[trigger]
            layers.contains(l) && l.y + l.h == m.y + m.h && 10 * l.w >= 9 * m.w && b.y + b.h
                + edge_size(m.reserved, l.h) == m.h,
        b.w == 0 || b.x + b.w == m.w || exists|l: Layer| #[trigger]
            layers.contains(l) && l.x + l.w == m.x + m.w && 10 * l.h >= 9 * m.h && b.x + b.w
                + edge_size(m.reserved, l.w) == m.w,
{
    let (top, bottom, left, right) = choose|top: u32, bottom: u32, left: u32, right: u32|
        {
            &&& #[trigger] is_inset(m, layers, Edge::Top, top)
            &&& #[trigger] is_inset(m, layers, Edge::Bottom, bottom)
            &&& #[trigger] is_inset(m, layers, Edge::Left, left)
            &&& #[trigger] is_inset(m, layers, Edge::Right, right)
            &&& b == free_box(m, top, bottom, left, right)
        };
    if top > 0 {
        lemma_inset_rests_on_a_bar(m, layers, Edge::Top, top);
    }
    if bottom > 0 {
        lemma_inset_rests_on_a_bar(m, layers, Edge::Bottom, bottom);
    }
    if left > 0 {
        lemma_inset_rests_on_a_bar(m, layers, Edge::Left, left);
    }
    if right > 0 {
        lemma_inset_rests_on_a_bar(m, layers, Edge::Right, right);
    }
}

/// What is taken of an edge is what some layer along it takes.
proof fn lemma_inset_rests_on_a_bar(m: MonitorModel, layers: Set<Layer>, e: Edge, n: u32)
    requires
        is_inset(m, layers, e, n),
        n > 0,
    ensures
        exists|l: Layer| #[trigger]
            layers.contains(l) && match e {
                Edge::Top => l.y == m.y && 10 * l.w >= 9 * m.w && edge_size(m.reserved, l.h) == n,
                Edge::Bottom => l.y + l.h == m.y + m.h && 10 * l.w >= 9 * m.w && edge_size(
                    m.reserved,
                    l.h,
                ) == n,
                Edge::Left => l.x == m.x && 10 * l.h >= 9 * m.h && edge_size(m.reserved, l.w) == n,
                Edge::Right => l.x + l.w == m.x + m.w && 10 * l.h >= 9 * m.h && edge_size(
                    m.reserved,
                    l.w,
                ) == n,
            },
{
    let l = choose|l: Layer|
        layers.contains(l) && #[trigger] edge_of(m, l) == Some(e) && depth(m, l) == n;
    layers_lie_along_the_edge_they_touch(m, l);
    lemma_bar_spans_one_side(m, l);
    assert(layers.contains(l));
}

/// Whole numbers are read as they are where they fit into 32 bits, and else by their lowest 32 bits.
/// What is no whole number of 64 bits, or is negative where it must not be, is not read.
pub proof fn numbers_are_read_by_their_lowest_bits(n: int, j: Json)
    ensures
        i32::MIN <= n <= i32::MAX ==> signed_in(Json::Int(n)) == Some(n as i32),
        0 <= n <= u32::MAX ==> unsigned_in(Json::Int(n)) == Some(n as u32),
        i64::MIN <= n && n + 0x1_0000_0000 <= i64::MAX ==> signed_in(Json::Int(n + 0x1_0000_0000))
            == signed_in(Json::Int(n)),
        0 <= n && n + 0x1_0000_0000 <= u64::MAX ==> unsigned_in(Json::Int(n + 0x1_0000_0000))
            == unsigned_in(Json::Int(n)),
        n < 0 || n > u64::MAX ==> unsigned_in(Json::Int(n)) is None,
        n < i64::MIN || n > i64::MAX ==> signed_in(Json::Int(n)) is None,
        signed_in(j) is Some || unsigned_in(j) is Some ==> j is Int,
{
}

/// A monitor is as it was told: its name, its size, its place, and what is reserved on it.
pub proof fn monitor_is_as_told(j: Json, name: Seq<char>, x: i32, y: i32, w: u32, h: u32)
    requires
        member_of(j, "name"@) == Json::Str(name),
        member_of(j, "width"@) == Json::Int(w as int),
        member_of(j, "height"@) == Json::Int(h as int),
        member_of(j, "x"@) == Json::Int(x as int),
        member_of(j, "y"@) == Json::Int(y as int),
    ensures
        monitor_in(j) == Ok::<MonitorModel, SafeAreaError>(
            MonitorModel { name, x, y, w, h, reserved: reserved_in(j) },
        ),
{
}

/// Of what a monitor lacks, the first is named, in this order: its name, its width, its height, and
/// its place.
pub proof fn missing_part_is_named(j: Json)
    ensures
        ({
            let named = member_of(j, "name"@) is Str;
            let wide = unsigned_in(member_of(j, "width"@)) is Some;
            let high = unsigned_in(member_of(j, "height"@)) is Some;
            let at_x = signed_in(member_of(j, "x"@)) is Some;
            let at_y = signed_in(member_of(j, "y"@)) is Some;
            let r = monitor_in(j);
            &&& r is Ok <==> named && wide && high && at_x && at_y
            &&& !named ==> r == Err::<MonitorModel, SafeAreaError>(SafeAreaError::NoName)
            &&& named && !wide ==> r == Err::<MonitorModel, SafeAreaError>(SafeAreaError::NoWidth)
            &&& named && wide && !high ==> r == Err::<MonitorModel, SafeAreaError>(
                SafeAreaError::NoHeight,
            )
            &&& named && wide && high && !at_x ==> r == Err::<MonitorModel, SafeAreaError>(
                SafeAreaError::NoX,
            )
            &&& named && wide && high && at_x && !at_y ==> r == Err::<MonitorModel, SafeAreaError>(
                SafeAreaError::NoY,
            )
        }),
{
}

/// The focused monitor is the first one that says so.
pub proof fn first_focused_monitor_counts(items: Seq<Json>, i: int)
    requires
        0 <= i < items.len(),
        member_of(items[i], "focused"@) == Json::Bool(true),
        forall|k: int|
            0 <= k < i ==> member_of(#[trigger] items[k], "focused"@) != Json::Bool(true),
    ensures
        focused_in(Json::Array(items)) == Some(items[i]),
        focused_monitor_in(Json::Array(items)) == monitor_in(items[i]),
{
    lemma_focused_prefix(items, i);
    assert(items.take(i + 1).drop_last() =~= items.take(i));
    assert(items.take(i + 1).last() == items[i]);
    assert(first_focused(items.take(i + 1)) == Some(items[i]));
    lemma_focus_is_kept(items, i + 1);
}

proof fn lemma_focused_prefix(items: Seq<Json>, n: int)
    requires
        0 <= n <= items.len(),
        forall|k: int|
            0 <= k < n ==> member_of(#[trigger] items[k], "focused"@) != Json::Bool(true),
    ensures
        first_focused(items.take(n)) is None,
    decreases n,
{
    if n > 0 {
        lemma_focused_prefix(items, n - 1);
        assert(items.take(n).drop_last() =~= items.take(n - 1));
        assert(items.take(n).last() == items[n - 1]);
    }
}

proof fn lemma_focus_is_kept(items: Seq<Json>, n: int)
    requires
        0 <= n <= items.len(),
        first_focused(items.take(n)) is Some,
    ensures
        first_focused(items) == first_focused(items.take(n)),
    decreases items.len() - n,
{
    if n == items.len() {
        assert(items.take(n) =~= items);
    } else {
        assert(items.take(n + 1).drop_last() =~= items.take(n));
        lemma_focus_is_kept(items, n + 1);
    }
}

/// Without a monitor that says it is focused, there is none.
pub proof fn no_monitor_is_focused(items: Seq<Json>)
    requires
        forall|k: int|
            0 <= k < items.len() ==> member_of(#[trigger] items[k], "focused"@) != Json::Bool(true),
    ensures
        focused_in(Json::Array(items)) is None,
        focused_monitor_in(Json::Array(items)) == Err::<MonitorModel, SafeAreaError>(
            SafeAreaError::NoFocusedMonitor,
        ),
{
    lemma_focused_prefix(items, items.len() as int);
    assert(items.take(items.len() as int) =~= items);
}

/// What is reserved on a monitor are the numbers in its list, in their order; what cannot be read
/// is left out.
pub proof fn reserved_numbers_are_listed(items: Seq<Json>, j: Json, n: u32)
    ensures
        numbers_in(Seq::empty()).len() == 0,
        numbers_in(items.push(Json::Int(n as int))) == numbers_in(items).push(n),
        !(j is Int) ==> numbers_in(items.push(j)) == numbers_in(items),
{
    assert(items.push(j).drop_last() =~= items);
    assert(items.push(Json::Int(n as int)).drop_last() =~= items);
}

/// A layer is where it is told to be, and as large.
pub proof fn layer_is_as_told(j: Json, x: i32, y: i32, w: u32, h: u32)
    requires
        member_of(j, "x"@) == Json::Int(x as int),
        member_of(j, "y"@) == Json::Int(y as int),
        member_of(j, "w"@) == Json::Int(w as int),
        member_of(j, "h"@) == Json::Int(h as int),
    ensures
        layer_in(j) == (Layer { x, y, w, h }),
{
}

/// What is not told of a layer is zero.
pub proof fn untold_part_of_a_layer_is_zero(j: Json)
    ensures
        !(member_of(j, "x"@) is Int) ==> layer_in(j).x == 0,
        !(member_of(j, "y"@) is Int) ==> layer_in(j).y == 0,
        !(member_of(j, "w"@) is Int) ==> layer_in(j).w == 0,
        !(member_of(j, "h"@) is Int) ==> layer_in(j).h == 0,
{
}

/// The layers of a monitor are those listed on any of its levels, and no others.
pub proof fn layers_are_those_on_all_levels(
    root: Json,
    name: Seq<char>,
    levels: Map<Seq<char>, Json>,
    l: Layer,
)
    requires
        member_of(member_of(root, name), "levels"@) == Json::Object(levels),
    ensures
        layers_in(root, name).contains(l) <==> exists|k: Seq<char>, i: int|
            levels.contains_key(k) && levels[k] is Array && 0 <= i < levels[k]->Array_0.len()
                && layer_in(#[trigger] levels[k]->Array_0[i]) == l,
{
    if layers_in(root, name).contains(l) {
        let k = choose|k: Seq<char>| levels.contains_key(k) && on_level(#[trigger] levels[k], l);
        let i = choose|i: int|
            0 <= i < levels[k]->Array_0.len() && layer_in(#[trigger] levels[k]->Array_0[i]) == l;
        assert(layer_in(levels[k]->Array_0[i]) == l);
    }
}

/// A window is shown on a monitor if it is on it, is on the workspace that the monitor shows, and is
/// neither unmapped nor hidden. What is not told of a window speaks for it.
pub proof fn windows_are_shown_on_their_workspace(
    client: Json,
    monitor: Json,
    on: int,
    id: int,
    space: int,
    active: int,
)
    requires
        member_of(client, "monitor"@) == Json::Int(on),
        member_of(monitor, "id"@) == Json::Int(id),
        member_of(member_of(client, "workspace"@), "id"@) == Json::Int(space),
        member_of(member_of(monitor, "activeWorkspace"@), "id"@) == Json::Int(active),
        i64::MIN <= on <= i64::MAX,
        i64::MIN <= id <= i64::MAX,
        i64::MIN <= space <= i64::MAX,
        i64::MIN <= active <= i64::MAX,
    ensures
        is_shown(client, monitor) <==> {
            &&& on == id
            &&& space == active
            &&& member_of(client, "mapped"@) != Json::Bool(false)
            &&& member_of(client, "hidden"@) != Json::Bool(true)
        },
{
}

/// A window of which the monitor or the workspace is not told is not shown, and on a monitor of which
/// either is not told no window is.
pub proof fn untold_places_show_nothing(client: Json, monitor: Json)
    requires
        is_shown(client, monitor),
    ensures
        member_of(client, "monitor"@) is Int,
        member_of(monitor, "id"@) is Int,
        member_of(member_of(client, "workspace"@), "id"@) is Int,
        member_of(member_of(monitor, "activeWorkspace"@), "id"@) is Int,
        member_of(client, "monitor"@) == member_of(monitor, "id"@),
        member_of(member_of(client, "workspace"@), "id"@) == member_of(
            member_of(monitor, "activeWorkspace"@),
            "id"@,
        ),
{
}

/// The box of a window is told from the corner of its monitor, and has the window's size.
pub proof fn windows_are_placed_on_their_monitor(
    client: Json,
    monitor: Json,
    at: Seq<Json>,
    size: Seq<Json>,
    b: Bbox,
    x: i32,
    y: i32,
)
    requires
        member_of(client, "at"@) == Json::Array(at),
        member_of(client, "size"@) == Json::Array(size),
        member_of(monitor, "x"@) == Json::Int(x as int),
        member_of(monitor, "y"@) == Json::Int(y as int),
        at.len() >= 2 && size.len() >= 2,
        i32::MIN <= x + b.x <= i32::MAX,
        i32::MIN <= y + b.y <= i32::MAX,
        at[0] == Json::Int(x + b.x),
        at[1] == Json::Int(y + b.y),
        size[0] == Json::Int(b.w as int),
        size[1] == Json::Int(b.h as int),
    ensures
        client_rect(client, monitor) == Some(b),
{
}

/// Windows are listed in the order they are told in, and those that are not shown, or have no box,
/// are left out.
pub proof fn shown_windows_keep_their_order(clients: Seq<Json>, client: Json, monitor: Json)
    ensures
        shown_rects(Seq::empty(), monitor).len() == 0,
        is_shown(client, monitor) ==> (client_rect(client, monitor) matches Some(b) ==> shown_rects(
            clients.push(client),
            monitor,
        ) == shown_rects(clients, monitor).push(b)),
        !is_shown(client, monitor) || client_rect(client, monitor) is None ==> shown_rects(
            clients.push(client),
            monitor,
        ) == shown_rects(clients, monitor),
{
    assert(clients.push(client).drop_last() =~= clients);
}

/// What can be told of windows needs both a focused monitor and a list of windows.
pub proof fn windows_need_a_focused_monitor(monitors: Json, monitor: Json, clients: Seq<Json>)
    requires
        focused_in(monitors) == Some(monitor),
    ensures
        clients_told(Some(monitors), Some(Json::Array(clients))) == shown_rects(clients, monitor),
        clients_told(None, Some(Json::Array(clients))).len() == 0,
        clients_told(Some(monitors), None).len() == 0,
{
}

/// A new window is told to float, where to open, and how large to be, before its command. It opens
/// no further left or up than the corner of the screen, and without a size it is told none.
pub proof fn window_is_told_where_to_open(cmd: Seq<char>, b: Bbox)
    ensures
        ({
            let x = decimal((if b.x < 0 {
                0
            } else {
                b.x as int
            }) as nat);
            let y = decimal((if b.y < 0 {
                0
            } else {
                b.y as int
            }) as nat);
            &&& b.w > 0 && b.h > 0 ==> payload(cmd, b) == "[float;move "@ + x + " "@ + y + ";size "@
                + decimal(b.w as nat) + " "@ + decimal(b.h as nat) + "] "@ + cmd
            &&& b.w == 0 || b.h == 0 ==> payload(cmd, b) == "[float;move "@ + x + " "@ + y + "] "@
                + cmd
        }),
{
}

/// The control program is asked to dispatch the command.
pub proof fn command_is_dispatched(args: Seq<String>, payload: Seq<char>)
    requires
        dispatch_args(args, payload),
    ensures
        args.len() == 3,
        args[0]@ == "dispatch"@,
        args[1]@ == "exec"@,
        args[2]@ == payload,
{
}

/// The free area of a monitor can be told whatever its layers are, as long as the monitor's sides
/// are 31-bit numbers.
pub proof fn free_area_can_be_told(m: MonitorModel, layers: Set<Layer>)
    requires
        m.w <= i32::MAX,
        m.h <= i32::MAX,
    ensures
        area_fits(m, layers),
{
    assert forall|n: u32| #[trigger] is_inset(m, layers, Edge::Top, n) implies n <= i32::MAX by {
        lemma_inset_bound(m, layers, Edge::Top, n);
    }
    assert forall|n: u32| #[trigger] is_inset(m, layers, Edge::Left, n) implies n <= i32::MAX by {
        lemma_inset_bound(m, layers, Edge::Left, n);
    }
}

/// An error says what is missing.
pub proof fn errors_say_what_is_missing()
    ensures
        SafeAreaError::BadMonitors.spec_message() == "parsing hyprctl JSON output"@,
        SafeAreaError::NoFocusedMonitor.spec_message() == "no focused monitor reported by hyprctl"@,
        SafeAreaError::NoName.spec_message() == "monitor name missing"@,
        SafeAreaError::NoWidth.spec_message() == "monitor width missing"@,
        SafeAreaError::NoHeight.spec_message() == "monitor height missing"@,
        SafeAreaError::NoX.spec_message() == "monitor x missing"@,
        SafeAreaError::NoY.spec_message() == "monitor y missing"@,
{
}

/// Where nothing is told of a monitor's levels, it has no layers; and what is no list names no
/// focused monitor.
pub proof fn untold_lists_are_empty(root: Json, name: Seq<char>, l: Layer, monitors: Json)
    ensures
        !(member_of(member_of(root, name), "levels"@) is Object) ==> !layers_in(root, name).contains(
            l,
        ),
        !(monitors is Array) ==> focused_in(monitors) is None,
        !(member_of(root, "reserved"@) is Array) ==> reserved_in(root).len() == 0,
        member_of(root, "reserved"@) matches Json::Array(items) ==> reserved_in(root) == numbers_in(
            items,
        ),
        layers_told(None) is None,
{
}

} // verus!
