//! What the user can tune: the terminal, rules for single applications, and how the pointer draws.

use crate::apps::opt_text;
use crate::snap::{targets, Snapper};
use crate::stroke::{longer, Bbox};
use crate::text::{
    chars_of, is_white, is_word, lemma_word_len, split_words, text_between, texts,
    word_is_one_word, words,
};
use vstd::hash_map::StringHashMap;
use vstd::prelude::*;

verus! {

/// What happens to the box of one application's windows.
#[derive(Debug, Clone, Copy)]
pub struct Rule {
    /// A box that is less wide becomes this wide.
    pub min_width: Option<u32>,
    /// A box that is less high becomes this high.
    pub min_height: Option<u32>,
    /// The size of a cell. The sides of a box are shortened to a whole number of cells.
    pub cell_px: Option<[u32; 2]>,
}

impl Default for Rule {
    fn default() -> (r: Rule)
        ensures
            r == (Rule { min_width: None, min_height: None, cell_px: None }),
    {
        Rule { min_width: None, min_height: None, cell_px: None }
    }
}

/// What the pointer draws while no modifier is held.
#[derive(Debug, Clone, Copy, PartialEq, Eq, Structural)]
pub enum GestureMode {
    Rectangle,
    Freehand,
}

impl Default for GestureMode {
    fn default() -> (r: GestureMode)
        ensures
            r == GestureMode::Rectangle,
    {
        GestureMode::Rectangle
    }
}

/// A key that changes what the pointer draws.
#[derive(Debug, Clone, Copy, PartialEq, Eq, Structural)]
pub enum Modifier {
    Shift,
    Ctrl,
    Alt,
}

/// What the pointer draws.
#[derive(Debug, Clone, Copy, PartialEq, Eq, Structural)]
pub enum EffectiveMode {
    Rectangle,
    Square,
    Freehand,
}

/// How the pointer draws.
#[derive(Debug, Clone)]
pub struct GestureConfig {
    /// What is drawn while no modifier is held.
    pub default: GestureMode,
    /// The key that makes a rectangle a square.
    pub square_modifier: Option<Modifier>,
    /// The key that draws freely.
    pub freehand_modifier: Option<Modifier>,
    /// How far the pointer travels before a press becomes a drag, in 1/256 of a logical pixel. A
    /// shorter way is a click.
    pub drag_threshold_px: i32,
    /// Is the size of a rectangle shown while it is drawn?
    pub show_dimensions: bool,
    /// The least width of a drawn box.
    pub min_width: u32,
    /// The least height of a drawn box.
    pub min_height: u32,
    /// The width of the box that a click makes.
    pub click_spawn_width: Option<u32>,
    /// The height of the box that a click makes.
    pub click_spawn_height: Option<u32>,
    /// Are points pulled onto the corners and edges of other windows?
    pub snap: bool,
    /// How far a point is pulled, in 1/256 of a logical pixel.
    pub snap_radius_px: i32,
}

impl Default for GestureConfig {
    fn default() -> (r: GestureConfig)
        ensures
            r == (GestureConfig {
                default: GestureMode::Rectangle,
                square_modifier: Some(Modifier::Shift),
                freehand_modifier: Some(Modifier::Alt),
                drag_threshold_px: 1280,
                show_dimensions: true,
                min_width: 320,
                min_height: 200,
                click_spawn_width: Some(720),
                click_spawn_height: Some(480),
                snap: true,
                snap_radius_px: 3072,
            }),
    {
        GestureConfig {
            default: GestureMode::Rectangle,
            square_modifier: Some(Modifier::Shift),
            freehand_modifier: Some(Modifier::Alt),
            drag_threshold_px: 1280,
            show_dimensions: true,
            min_width: 320,
            min_height: 200,
            click_spawn_width: Some(720),
            click_spawn_height: Some(480),
            snap: true,
            snap_radius_px: 3072,
        }
    }
}

/// Is this modifier held? One that is not set never is.
pub open spec fn is_held(m: Option<Modifier>, shift: bool, ctrl: bool, alt: bool) -> bool {
    match m {
        Some(Modifier::Shift) => shift,
        Some(Modifier::Ctrl) => ctrl,
        Some(Modifier::Alt) => alt,
        None => false,
    }
}

fn held(m: Option<Modifier>, shift: bool, ctrl: bool, alt: bool) -> (r: bool)
    ensures
        r == is_held(m, shift, ctrl, alt),
{
    match m {
        Some(Modifier::Shift) => shift,
        Some(Modifier::Ctrl) => ctrl,
        Some(Modifier::Alt) => alt,
        None => false,
    }
}

impl GestureConfig {
    /// What is drawn with these modifiers held. Drawing freely goes before the square, and where
    /// drawing freely is the default the square's key gives a rectangle.
    pub open spec fn spec_resolve(self, shift: bool, ctrl: bool, alt: bool) -> EffectiveMode {
        if is_held(self.freehand_modifier, shift, ctrl, alt) {
            EffectiveMode::Freehand
        } else if is_held(self.square_modifier, shift, ctrl, alt) {
            if self.default == GestureMode::Rectangle {
                EffectiveMode::Square
            } else {
                EffectiveMode::Rectangle
            }
        } else if self.default == GestureMode::Rectangle {
            EffectiveMode::Rectangle
        } else {
            EffectiveMode::Freehand
        }
    }

    /// What is drawn with these modifiers held.
    pub fn resolve(&self, shift: bool, ctrl: bool, alt: bool) -> (r: EffectiveMode)
        ensures
            r == self.spec_resolve(shift, ctrl, alt),
    {
        if held(self.freehand_modifier, shift, ctrl, alt) {
            return EffectiveMode::Freehand;
        }
        if held(self.square_modifier, shift, ctrl, alt) {
            return match self.default {
                GestureMode::Rectangle => EffectiveMode::Square,
                GestureMode::Freehand => EffectiveMode::Rectangle,
            };
        }
        match self.default {
            GestureMode::Rectangle => EffectiveMode::Rectangle,
            GestureMode::Freehand => EffectiveMode::Freehand,
        }
    }

    /// What points are pulled onto, among some windows and the free area of the screen; nothing
    /// where snapping is switched off.
    pub fn snapper(&self, windows: &Vec<Bbox>, safe_area: Bbox) -> (r: Option<Snapper>)
        ensures
            r is Some <==> self.snap,
            r matches Some(s) ==> s@ == targets(windows@, safe_area, self.snap_radius_px as int),
    {
        if self.snap {
            Some(Snapper::new(windows, safe_area, self.snap_radius_px))
        } else {
            None
        }
    }
}

/// All settings.
pub struct Config {
    /// The terminal that `--term` starts.
    pub default_term: Option<String>,
    /// The rules, by the name of the program they are for.
    pub rules: StringHashMap<Rule>,
    pub gesture: GestureConfig,
}

impl Default for Config {
    fn default() -> (r: Config)
        ensures
            r.default_term is None,
            r.rules@ == Map::<Seq<char>, Rule>::empty(),
            r.gesture.default == GestureMode::Rectangle,
            r.gesture.square_modifier == Some(Modifier::Shift),
            r.gesture.freehand_modifier == Some(Modifier::Alt),
            r.gesture.drag_threshold_px == 1280,
            r.gesture.show_dimensions,
            r.gesture.min_width == 320,
            r.gesture.min_height == 200,
            r.gesture.click_spawn_width == Some(720u32),
            r.gesture.click_spawn_height == Some(480u32),
            r.gesture.snap,
            r.gesture.snap_radius_px == 3072,
    {
        Config { default_term: None, rules: StringHashMap::new(), gesture: GestureConfig::default() }
    }
}

/// Where the last part of a path begins.
pub open spec fn last_part(path: Seq<char>) -> nat
    decreases path.len(),
{
    if path.len() == 0 || path.last() == '/' {
        path.len()
    } else {
        last_part(path.drop_last())
    }
}

/// The last name in a path. Slashes at the end and parts that say "here" do not count; a path
/// without a name, or one that ends in the way up, has none.
pub open spec fn file_name(path: Seq<char>) -> Option<Seq<char>>
    decreases path.len(),
{
    let n = last_part(path);
    let part = path.skip(n as int);
    if n > path.len() {
        None
    } else if part.len() == 0 || part == seq!['.'] {
        if n == 0 {
            None
        } else {
            file_name(path.take(n - 1))
        }
    } else if part == seq!['.', '.'] {
        None
    } else {
        Some(part)
    }
}

/// The name under which rules for a command are kept: that of its program, without the way to it.
pub open spec fn class_of(exec: Seq<char>) -> Option<Seq<char>> {
    if words(exec).len() == 0 {
        None
    } else {
        match file_name(words(exec)[0]) {
            Some(name) => Some(name),
            None => Some(words(exec)[0]),
        }
    }
}

proof fn lemma_last_part(path: Seq<char>, n: int)
    requires
        0 <= n <= path.len(),
        n > 0 ==> path[n - 1] == '/',
        forall|k: int| n <= k < path.len() ==> path[k] != '/',
    ensures
        last_part(path) == n,
    decreases path.len(),
{
    if n < path.len() {
        assert(path[path.len() - 1] != '/');
        lemma_last_part(path.drop_last(), n);
    }
}

/// The last name in the path that the first `to` characters form.
fn name_in(chars: &Vec<char>, to: usize) -> (r: Option<String>)
    requires
        to <= chars@.len(),
    ensures
        opt_text(r) == file_name(chars@.take(to as int)),
{
    let mut end: usize = to;
    loop
        invariant
            end <= chars@.len(),
            to <= chars@.len(),
            file_name(chars@.take(to as int)) == file_name(chars@.take(end as int)),
        decreases end,
    {
        let ghost path = chars@.take(end as int);
        let mut from: usize = end;
        while from > 0 && chars[from - 1] != '/'
            invariant
                from <= end <= chars@.len(),
                forall|k: int| from <= k < end ==> chars@[k] != '/',
            decreases from,
        {
            from -= 1;
        }
        let ghost part = path.skip(from as int);
        proof {
            lemma_last_part(path, from as int);
            assert(part =~= chars@.subrange(from as int, end as int));
        }
        let n: usize = end - from;
        let here = n == 1 && chars[from] == '.';
        let up = n == 2 && chars[from] == '.' && chars[from + 1] == '.';
        proof {
            if here {
                assert(part =~= seq!['.']);
            }
            if up {
                assert(part =~= seq!['.', '.']);
            }
            if part == seq!['.'] {
                assert(part[0] == '.' && part.len() == 1);
            }
            if part == seq!['.', '.'] {
                assert(part[0] == '.' && part[1] == '.' && part.len() == 2);
            }
        }
        if n == 0 || here {
            if from == 0 {
                return None;
            }
            assert(path.take(from - 1) =~= chars@.take(from - 1));
            end = from - 1;
        } else if up {
            return None;
        } else {
            return Some(text_between(chars, from, end));
        }
    }
}

impl Config {
    /// Keeps a rule for the program of this name.
    pub fn set_rule(&mut self, class: String, rule: Rule)
        ensures
            final(self).rules@ == old(self).rules@.insert(class@, rule),
            final(self).default_term == old(self).default_term,
            final(self).gesture == old(self).gesture,
    {
        self.rules.insert(class, rule);
    }

    /// The rule for a command. It is found by the name of the command's program, wherever that
    /// program lies.
    pub open spec fn spec_rule_for(self, exec: Seq<char>) -> Option<Rule> {
        match class_of(exec) {
            Some(class) => if self.rules@.contains_key(class) {
                Some(self.rules@[class])
            } else {
                None
            },
            None => None,
        }
    }

    /// The rule for a command, if there is one.
    pub fn rule_for(&self, exec: &str) -> (r: Option<&Rule>)
        ensures
            r is Some <==> self.spec_rule_for(exec@) is Some,
            r matches Some(rule) ==> self.spec_rule_for(exec@) == Some(*rule),
    {
        let tokens = split_words(exec);
        proof {
            assert(texts(tokens@).len() == tokens@.len());
        }
        if tokens.len() == 0 {
            return None;
        }
        proof {
            assert(texts(tokens@)[0] == tokens@[0]@);
        }
        let chars = chars_of(tokens[0].as_str());
        assert(chars@.take(chars@.len() as int) =~= chars@);
        match name_in(&chars, chars.len()) {
            Some(name) => self.rules.get(name.as_str()),
            None => self.rules.get(tokens[0].as_str()),
        }
    }
}

/// The optional number, or zero.
pub open spec fn or_zero(n: Option<u32>) -> u32 {
    match n {
        Some(v) => v,
        None => 0,
    }
}

/// The length cut to a whole number of cells. Cells of no length change nothing.
pub open spec fn whole_cells(size: int, cell: int) -> int {
    if cell > 0 {
        size - size % cell
    } else {
        size
    }
}

/// The box after a rule was applied.
pub open spec fn ruled(bbox: Bbox, rule: Option<Rule>) -> Bbox {
    match rule {
        None => bbox,
        Some(r) => {
            let b = bbox.spec_enforce_min(or_zero(r.min_width), or_zero(r.min_height));
            match r.cell_px {
                None => b,
                Some(cell) => Bbox {
                    x: b.x,
                    y: b.y,
                    w: whole_cells(b.w as int, cell@[0] as int) as u32,
                    h: whole_cells(b.h as int, cell@[1] as int) as u32,
                },
            }
        },
    }
}

/// The corner of the box that a rule makes is a pair of 32-bit numbers.
pub open spec fn rule_fits(bbox: Bbox, rule: Option<Rule>) -> bool {
    rule matches Some(r) ==> bbox.enforce_min_fits(or_zero(r.min_width), or_zero(r.min_height))
}

fn value_or_zero(n: Option<u32>) -> (r: u32)
    ensures
        r == or_zero(n),
{
    match n {
        Some(v) => v,
        None => 0,
    }
}

fn cut_to_cells(size: u32, cell: u32) -> (r: u32)
    ensures
        r == whole_cells(size as int, cell as int),
{
    if cell > 0 {
        proof {
            vstd::arithmetic::div_mod::lemma_fundamental_div_mod(size as int, cell as int);
            vstd::arithmetic::mul::lemma_mul_is_commutative(
                size as int / cell as int,
                cell as int,
            );
        }
        (size / cell) * cell
    } else {
        size
    }
}

/// Can a rule be applied to a box?
pub fn can_apply_rule(bbox: Bbox, rule: Option<&Rule>) -> (r: bool)
    ensures
        rule is None ==> r,
        rule matches Some(k) ==> r == rule_fits(bbox, Some(*k)),
{
    match rule {
        None => true,
        Some(k) => bbox.can_enforce_min(value_or_zero(k.min_width), value_or_zero(k.min_height)),
    }
}

/// Applies a rule to a box: it grows to the rule's least size, and is then cut to whole cells.
/// Without a rule it stays as it is.
pub fn apply_rule(bbox: Bbox, rule: Option<&Rule>) -> (r: Bbox)
    requires
        rule matches Some(k) ==> rule_fits(bbox, Some(*k)),
    ensures
        rule is None ==> r == bbox,
        rule matches Some(k) ==> r == ruled(bbox, Some(*k)),
{
    match rule {
        None => bbox,
        Some(k) => {
            let mut b = bbox.enforce_min(value_or_zero(k.min_width), value_or_zero(k.min_height));
            if let Some(cell) = k.cell_px {
                b.w = cut_to_cells(b.w, cell[0]);
                b.h = cut_to_cells(b.h, cell[1]);
            }
            b
        },
    }
}

/// The terminal to start: the one of the settings, or else the one of the environment, or else
/// kitty.
pub fn resolve_terminal(cfg: &Config, env: Option<&str>) -> (r: String)
    ensures
        r@ == (match cfg.default_term {
            Some(t) => t@,
            None => match env {
                Some(t) => t@,
                None => "kitty"@,
            },
        }),
{
    match &cfg.default_term {
        Some(t) => t.as_str().to_owned(),
        None => match env {
            Some(t) => t.to_owned(),
            None => "kitty".to_owned(),
        },
    }
}

/// A rule's box is a whole number of cells on each side, and no more than a cell short of the
/// larger of the drawn size and the rule's least size.
pub proof fn ruled_box_is_whole_cells(bbox: Bbox, rule: Rule, cell_w: u32, cell_h: u32)
    requires
        rule.cell_px matches Some(c) && c@[0] == cell_w && c@[1] == cell_h,
        cell_w > 0,
        cell_h > 0,
    ensures
        ({
            let r = ruled(bbox, Some(rule));
            let full_w = longer(bbox.w as int, or_zero(rule.min_width) as int);
            let full_h = longer(bbox.h as int, or_zero(rule.min_height) as int);
            &&& r.w % cell_w == 0
            &&& r.h % cell_h == 0
            &&& full_w - cell_w < r.w <= full_w
            &&& full_h - cell_h < r.h <= full_h
        }),
{
    let full_w = longer(bbox.w as int, or_zero(rule.min_width) as int);
    let full_h = longer(bbox.h as int, or_zero(rule.min_height) as int);
    lemma_whole_cells(full_w, cell_w as int);
    lemma_whole_cells(full_h, cell_h as int);
}

proof fn lemma_whole_cells(size: int, cell: int)
    requires
        cell > 0,
        size >= 0,
    ensures
        whole_cells(size, cell) % cell == 0,
        0 <= whole_cells(size, cell) <= size,
        size - cell < whole_cells(size, cell),
{
    vstd::arithmetic::div_mod::lemma_fundamental_div_mod(size, cell);
    vstd::arithmetic::div_mod::lemma_mod_multiples_basic(size / cell, cell);
    vstd::arithmetic::mul::lemma_mul_is_commutative(size / cell, cell);
    vstd::arithmetic::div_mod::lemma_mod_bound(size, cell);
    vstd::arithmetic::div_mod::lemma_div_pos_is_pos(size, cell);
    vstd::arithmetic::mul::lemma_mul_nonnegative(cell, size / cell);
}

/// Whatever else is held, the key that draws freely does so.
pub proof fn freehand_key_wins(g: GestureConfig, shift: bool, ctrl: bool, alt: bool)
    requires
        is_held(g.freehand_modifier, shift, ctrl, alt),
    ensures
        g.spec_resolve(shift, ctrl, alt) == EffectiveMode::Freehand,
{
}

/// Only a rectangle can be made a square: where drawing freely is the default, nothing draws one.
pub proof fn squares_need_rectangles(g: GestureConfig, shift: bool, ctrl: bool, alt: bool)
    ensures
        g.spec_resolve(shift, ctrl, alt) == EffectiveMode::Square ==> g.default
            == GestureMode::Rectangle && is_held(g.square_modifier, shift, ctrl, alt),
{
}

/// Arguments of a command do not matter to its rule: whatever follows the first word, the rule is
/// that of the word alone.
pub proof fn arguments_do_not_change_the_rule(
    cfg: Config,
    word: Seq<char>,
    space: char,
    rest: Seq<char>,
)
    requires
        is_word(word),
        is_white(space),
    ensures
        cfg.spec_rule_for(word + seq![space] + rest) == cfg.spec_rule_for(word),
{
    lemma_first_word(word, Seq::empty());
    assert(word + Seq::<char>::empty() =~= word);
    lemma_first_word(word, seq![space] + rest);
    assert(word + (seq![space] + rest) =~= word + seq![space] + rest);
}

proof fn lemma_first_word(word: Seq<char>, rest: Seq<char>)
    requires
        is_word(word),
        rest.len() > 0 ==> is_white(rest[0]),
    ensures
        words(word + rest).len() > 0,
        words(word + rest)[0] == word,
{
    let s = word + rest;
    assert forall|i: int| 0 <= i < word.len() implies !is_white(#[trigger] s[i]) by {
        assert(s[i] == word[i]);
    }
    lemma_word_len(s, word.len() as int);
    assert(s.take(word.len() as int) =~= word);
}

/// Where a program lies does not matter to its rule: a program in a directory has the rule of its
/// bare name.
pub proof fn directories_do_not_change_the_rule(cfg: Config, dir: Seq<char>, name: Seq<char>)
    requires
        is_word(name),
        !name.contains('/'),
        name != seq!['.'],
        name != seq!['.', '.'],
        forall|i: int| 0 <= i < dir.len() ==> !is_white(#[trigger] dir[i]),
    ensures
        cfg.spec_rule_for(dir + seq!['/'] + name) == cfg.spec_rule_for(name),
{
    let path = dir + seq!['/'] + name;
    path_is_named_by_its_last_part(dir, name);
    assert forall|i: int| 0 <= i < path.len() implies !is_white(#[trigger] path[i]) by {
        if i > dir.len() {
            assert(path[i] == name[i - dir.len() - 1]);
        } else if i < dir.len() {
            assert(path[i] == dir[i]);
        }
    }
    word_is_one_word(path);
    word_is_one_word(name);
}

/// A rule makes a box at least as large as the rule says, around the middle it had: each side is
/// the longer of the box's own and the rule's, and the middle moves by half a pixel at most. Cells
/// then shorten each side to the largest whole number of them, and leave the corner where it is;
/// without cells, or with cells of no length, the side stays as long. Without a rule the box stays as
/// it is.
pub proof fn rule_grows_the_box_around_its_middle(b: Bbox, rule: Rule)
    requires
        ({
            let least_w = match rule.min_width {
                Some(n) => n as int,
                None => 0,
            };
            let least_h = match rule.min_height {
                Some(n) => n as int,
                None => 0,
            };
            &&& b.w < least_w ==> b.x - (least_w - b.w) / 2 >= i32::MIN
            &&& b.h < least_h ==> b.y - (least_h - b.h) / 2 >= i32::MIN
        }),
    ensures
        ({
            let r = ruled(b, Some(rule));
            let least_w = match rule.min_width {
                Some(n) => n as int,
                None => 0,
            };
            let least_h = match rule.min_height {
                Some(n) => n as int,
                None => 0,
            };
            let w = if b.w < least_w {
                least_w
            } else {
                b.w as int
            };
            let h = if b.h < least_h {
                least_h
            } else {
                b.h as int
            };
            &&& 0 <= (2 * r.x + w) - (2 * b.x + b.w) <= 1
            &&& 0 <= (2 * r.y + h) - (2 * b.y + b.h) <= 1
            &&& rule.cell_px is None ==> r.w == w && r.h == h
            &&& rule.cell_px matches Some(c) ==> {
                &&& c@[0] == 0 ==> r.w == w
                &&& c@[1] == 0 ==> r.h == h
                &&& c@[0] > 0 ==> r.w as int % c@[0] as int == 0 && w - c@[0] < r.w <= w
                &&& c@[1] > 0 ==> r.h as int % c@[1] as int == 0 && h - c@[1] < r.h <= h
            }
            &&& rule_fits(b, Some(rule))
            &&& rule_fits(b, None)
            &&& ruled(b, None) == b
        }),
{
    let w = longer(b.w as int, or_zero(rule.min_width) as int);
    let h = longer(b.h as int, or_zero(rule.min_height) as int);
    if let Some(c) = rule.cell_px {
        if c@[0] > 0 {
            lemma_whole_cells(w, c@[0] as int);
        }
        if c@[1] > 0 {
            lemma_whole_cells(h, c@[1] as int);
        }
    }
}

/// What is drawn depends on the keys that are held: the key for drawing freely goes before all
/// others, the key for squares turns rectangles into squares and drawing freely into rectangles, and
/// without either the default is drawn. A key that is not set is never held.
pub proof fn held_keys_pick_the_mode(g: GestureConfig, shift: bool, ctrl: bool, alt: bool)
    ensures
        ({
            let free = (g.freehand_modifier == Some(Modifier::Shift) && shift) || (
            g.freehand_modifier == Some(Modifier::Ctrl) && ctrl) || (g.freehand_modifier == Some(
                Modifier::Alt,
            ) && alt);
            let square = (g.square_modifier == Some(Modifier::Shift) && shift) || (g.square_modifier
                == Some(Modifier::Ctrl) && ctrl) || (g.square_modifier == Some(Modifier::Alt)
                && alt);
            let r = g.spec_resolve(shift, ctrl, alt);
            &&& free ==> r == EffectiveMode::Freehand
            &&& !free && square && g.default == GestureMode::Rectangle ==> r
                == EffectiveMode::Square
            &&& !free && square && g.default == GestureMode::Freehand ==> r
                == EffectiveMode::Rectangle
            &&& !free && !square && g.default == GestureMode::Rectangle ==> r
                == EffectiveMode::Rectangle
            &&& !free && !square && g.default == GestureMode::Freehand ==> r
                == EffectiveMode::Freehand
        }),
{
}

/// The name of a path is what stands behind its last slash. Slashes at the end do not count, and
/// neither does a dot that stands there alone; two dots alone are no name.
pub proof fn path_is_named_by_its_last_part(dir: Seq<char>, name: Seq<char>)
    requires
        !name.contains('/'),
        name.len() > 0,
    ensures
        name != seq!['.'] && name != seq!['.', '.'] ==> file_name(dir + seq!['/'] + name) == Some(name)
            && file_name(name) == Some(name),
        file_name(dir + seq!['/']) == file_name(dir),
        file_name(dir + seq!['/', '.']) == file_name(dir),
        file_name(dir + seq!['/', '.', '.']) is None,
        file_name(seq!['.', '.']) is None,
        file_name(seq!['.']) is None,
        file_name(Seq::empty()) is None,
{
    assert forall|k: int| 0 <= k < name.len() implies name[k] != '/' by {
        assert(name.contains(name[k]));
    }
    let n = dir.len() as int;
    let path = dir + seq!['/'] + name;
    lemma_last_part(path, n + 1);
    assert(path.skip(n + 1) =~= name);
    lemma_last_part(name, 0);
    assert(name.skip(0) =~= name);
    let open = dir + seq!['/'];
    lemma_last_part(open, n + 1);
    assert(open.skip(n + 1) =~= Seq::<char>::empty());
    assert(open.take(n) =~= dir);
    let here = dir + seq!['/', '.'];
    lemma_last_part(here, n + 1);
    assert(here.skip(n + 1) =~= seq!['.']);
    assert(here.take(n) =~= dir);
    let up = dir + seq!['/', '.', '.'];
    lemma_last_part(up, n + 1);
    assert(up.skip(n + 1) =~= seq!['.', '.']);
    assert(seq!['.', '.'].len() == 2 && seq!['.'].len() == 1);
    lemma_last_part(seq!['.', '.'], 0);
    assert(seq!['.', '.'].skip(0) =~= seq!['.', '.']);
    lemma_last_part(seq!['.'], 0);
    assert(seq!['.'].skip(0) =~= seq!['.']);
    assert(Seq::<char>::empty().skip(0) =~= Seq::<char>::empty());
}

/// The rule of a bare program name is the one that is kept under it. White space before a command
/// changes nothing, and a blank command has no rule.
pub proof fn rule_is_kept_under_the_program_name(
    cfg: Config,
    name: Seq<char>,
    space: char,
    exec: Seq<char>,
)
    requires
        is_word(name),
        !name.contains('/'),
        name != seq!['.'],
        name != seq!['.', '.'],
        is_white(space),
    ensures
        cfg.rules@.contains_key(name) ==> cfg.spec_rule_for(name) == Some(cfg.rules@[name]),
        !cfg.rules@.contains_key(name) ==> cfg.spec_rule_for(name) is None,
        cfg.spec_rule_for(seq![space] + exec) == cfg.spec_rule_for(exec),
        cfg.spec_rule_for(Seq::empty()) is None,
{
    path_is_named_by_its_last_part(Seq::empty(), name);
    word_is_one_word(name);
    assert((seq![space] + exec).drop_first() =~= exec);
    assert(words(seq![space] + exec) == words(exec));
}

/// A path that names nothing, such as a way up, has the rule that is kept under the path itself.
pub proof fn rule_of_a_nameless_path(cfg: Config, dir: Seq<char>)
    requires
        forall|i: int| 0 <= i < dir.len() ==> !is_white(#[trigger] dir[i]),
    ensures
        ({
            let path = dir + seq!['/', '.', '.'];
            &&& cfg.rules@.contains_key(path) ==> cfg.spec_rule_for(path) == Some(cfg.rules@[path])
            &&& !cfg.rules@.contains_key(path) ==> cfg.spec_rule_for(path) is None
        }),
{
    let path = dir + seq!['/', '.', '.'];
    assert(!seq!['a'].contains('/'));
    path_is_named_by_its_last_part(dir, seq!['a']);
    assert forall|i: int| 0 <= i < path.len() implies !is_white(#[trigger] path[i]) by {
        if i < dir.len() {
            assert(path[i] == dir[i]);
        }
    }
    word_is_one_word(path);
}

} // verus!
