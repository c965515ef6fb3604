//! The list of applications that the user picks from: what it holds for a query, which row is
//! selected, and which rows are in view.

use crate::apps::{App, AppModel};
use crate::fuzzy::{
    fuzzy_score, has_no_marks, holds_fold, is_plain, lemma_scorable_before, new_matcher,
    parts_are_short, parts_fit, pattern_score, scorable, FuzzyMatcher, MAX_NAME, MAX_NEEDLE,
    MAX_QUERY,
};
use crate::history::{
    bonus, history_wf, picked_commands_have_a_bonus, History, HistoryModel,
};
use crate::pinned::Pinned;
use crate::rank::{
    equal_ranks_keep_their_order, insert_in_order, orders, ranked, ranked_list_holds_the_same,
    ranked_list_is_in_order, views, Ranked,
};
use crate::text::{
    chars_of, comes_before, is_control, is_ctl, lemma_text_order_splits, text_before,
    texts_are_ordered,
};
use vstd::prelude::*;

verus! {

/// How many rows are in view at once.
pub const VISIBLE_ITEMS: usize = 8;

/// An application that is ranked by its past picks and then by its name.
pub struct Recent {
    pub app: usize,
    pub score: u32,
    pub name: String,
}

/// What an application is ranked by while nothing is searched for.
pub struct RecentModel {
    pub app: usize,
    pub score: u32,
    pub name: Seq<char>,
}

impl View for Recent {
    type V = RecentModel;

    open spec fn view(&self) -> RecentModel {
        RecentModel { app: self.app, score: self.score, name: self.name@ }
    }
}

/// Does `a` stand before `b` while nothing is searched for?
pub open spec fn recent_before(a: RecentModel, b: RecentModel) -> bool {
    a.score > b.score || (a.score == b.score && text_before(a.name, b.name))
}

impl Ranked for Recent {
    open spec fn before(a: RecentModel, b: RecentModel) -> bool {
        recent_before(a, b)
    }

    fn goes_before(&self, other: &Self) -> (r: bool) {
        self.score > other.score || (self.score == other.score && comes_before(
            self.name.as_str(),
            other.name.as_str(),
        ))
    }
}

/// An application that is ranked by its score.
#[derive(Clone, Copy)]
pub struct Scored {
    pub app: usize,
    pub score: u32,
}

impl View for Scored {
    type V = Scored;

    open spec fn view(&self) -> Scored {
        *self
    }
}

impl Ranked for Scored {
    open spec fn before(a: Scored, b: Scored) -> bool {
        a.score > b.score
    }

    fn goes_before(&self, other: &Self) -> (r: bool) {
        self.score > other.score
    }
}

/// What each application is ranked by while nothing is searched for.
pub open spec fn recent_rows(apps: Seq<AppModel>, h: HistoryModel) -> Seq<RecentModel> {
    Seq::new(
        apps.len(),
        |i: int|
            RecentModel {
                app: i as usize,
                score: bonus(h, apps[i].command),
                name: apps[i].name,
            },
    )
}

/// All applications, by their past picks and then by name.
pub open spec fn by_recency(apps: Seq<AppModel>, h: HistoryModel) -> Seq<usize> {
    ranked::<Recent>(recent_rows(apps, h)).map_values(|c: RecentModel| c.app)
}

/// The sum, or the largest number if it is less.
pub open spec fn capped_sum(a: u32, b: u32) -> u32 {
    if a + b > u32::MAX {
        u32::MAX
    } else {
        (a + b) as u32
    }
}

/// The applications that have a score, each with its score and its bonus together.
pub open spec fn scored_rows(scores: Seq<Option<u32>>, bonuses: Seq<u32>) -> Seq<Scored>
    decreases scores.len(),
{
    if scores.len() == 0 {
        Seq::empty()
    } else {
        let n = scores.len() - 1;
        let before = scored_rows(scores.drop_last(), bonuses);
        match scores.last() {
            Some(s) => before.push(Scored { app: n as usize, score: capped_sum(s, bonuses[n]) }),
            None => before,
        }
    }
}

/// The applications that have a score, those with the highest sum of score and bonus first.
pub open spec fn by_score(scores: Seq<Option<u32>>, bonuses: Seq<u32>) -> Seq<usize> {
    ranked::<Scored>(scored_rows(scores, bonuses)).map_values(|c: Scored| c.app)
}

/// The scores that a query gives the applications.
pub open spec fn scores_of(apps: Seq<AppModel>, query: Seq<char>) -> Seq<Option<u32>> {
    Seq::new(apps.len(), |i: int| pattern_score(query, apps[i].name))
}

/// The bonuses of the applications.
pub open spec fn bonuses_of(apps: Seq<AppModel>, h: HistoryModel) -> Seq<u32> {
    Seq::new(apps.len(), |i: int| bonus(h, apps[i].command))
}

/// The list for a query: all applications by their past picks where the query is empty, and else
/// those that match it, by score.
#[verifier::opaque]
pub open spec fn listed(apps: Seq<AppModel>, query: Seq<char>, h: HistoryModel) -> Seq<usize> {
    if query.len() == 0 {
        by_recency(apps, h)
    } else {
        by_score(scores_of(apps, query), bonuses_of(apps, h))
    }
}

/// The places of all applications, ranked by their past picks and then by name.
pub fn rank_recent(apps: &Vec<App>, history: &History) -> (r: Vec<usize>)
    ensures
        r@ == by_recency(views(apps@), history@),
{
    let ghost models = views(apps@);
    let ghost rows = recent_rows(models, history@);
    let mut sorted: Vec<Recent> = Vec::new();
    let mut i: usize = 0;
    assert(views(sorted@) =~= Seq::<RecentModel>::empty());
    assert(rows.take(0) =~= Seq::<RecentModel>::empty());
    while i < apps.len()
        invariant
            i <= apps@.len(),
            models == views(apps@),
            rows == recent_rows(models, history@),
            views(sorted@) == ranked::<Recent>(rows.take(i as int)),
        decreases apps@.len() - i,
    {
        proof {
            assert(models[i as int] == apps@[i as int]@);
            assert(rows.take(i + 1).drop_last() =~= rows.take(i as int));
            assert(rows.take(i + 1).last() == rows[i as int]);
        }
        let score: u32 = history.score_bonus(apps[i].command.as_str());
        let name = apps[i].name.as_str().to_owned();
        insert_in_order(&mut sorted, Recent { app: i, score, name });
        i += 1;
    }
    assert(rows.take(i as int) =~= rows);
    let ghost all = ranked::<Recent>(rows);
    let mut out: Vec<usize> = Vec::new();
    let mut j: usize = 0;
    assert(sorted@.len() == views(sorted@).len());
    while j < sorted.len()
        invariant
            j <= sorted@.len(),
            sorted@.len() == all.len(),
            all == views(sorted@),
            out@.len() == j,
            forall|k: int| 0 <= k < j ==> #[trigger] out@[k] == all[k].app,
        decreases sorted@.len() - j,
    {
        assert(all[j as int] == sorted@[j as int]@);
        out.push(sorted[j].app);
        j += 1;
    }
    assert(out@ =~= by_recency(models, history@));
    out
}

/// The places of the applications that have a score, ranked by the sum of score and bonus. Those
/// with equal sums stay in order.
pub fn rank_matches(scores: &Vec<Option<u32>>, bonuses: &Vec<u32>) -> (r: Vec<usize>)
    requires
        scores@.len() == bonuses@.len(),
    ensures
        r@ == by_score(scores@, bonuses@),
{
    let mut sorted: Vec<Scored> = Vec::new();
    let mut i: usize = 0;
    assert(views(sorted@) =~= Seq::<Scored>::empty());
    assert(scores@.take(0) =~= Seq::<Option<u32>>::empty());
    while i < scores.len()
        invariant
            i <= scores@.len(),
            scores@.len() == bonuses@.len(),
            views(sorted@) == ranked::<Scored>(scored_rows(scores@.take(i as int), bonuses@)),
        decreases scores@.len() - i,
    {
        let ghost before = scored_rows(scores@.take(i as int), bonuses@);
        assert(scores@.take(i + 1).drop_last() =~= scores@.take(i as int));
        if let Some(s) = scores[i] {
            let row = Scored { app: i, score: s.saturating_add(bonuses[i]) };
            proof {
                assert(scored_rows(scores@.take(i + 1), bonuses@) == before.push(row));
                assert(before.push(row).drop_last() =~= before);
            }
            insert_in_order(&mut sorted, row);
        }
        i += 1;
    }
    assert(scores@.take(i as int) =~= scores@);
    let ghost all = ranked::<Scored>(scored_rows(scores@, bonuses@));
    let mut out: Vec<usize> = Vec::new();
    let mut j: usize = 0;
    assert(sorted@.len() == views(sorted@).len());
    while j < sorted.len()
        invariant
            j <= sorted@.len(),
            sorted@.len() == all.len(),
            all == views(sorted@),
            out@.len() == j,
            forall|k: int| 0 <= k < j ==> #[trigger] out@[k] == all[k].app,
        decreases sorted@.len() - j,
    {
        assert(all[j as int] == sorted@[j as int]@);
        out.push(sorted[j].app);
        j += 1;
    }
    assert(out@ =~= by_score(scores@, bonuses@));
    out
}

/// What a picker shows.
pub struct PickerModel {
    /// The applications there are. There are none until they have been looked for.
    pub apps: Seq<AppModel>,
    /// What is searched for.
    pub query: Seq<char>,
    /// The places of the listed applications among all of them.
    pub matches: Seq<usize>,
    /// The selected row.
    pub selected: int,
    /// The first row in view.
    pub scroll: int,
    pub history: HistoryModel,
    /// The pinned command.
    pub pinned: Option<Seq<char>>,
    /// Was anything pinned here?
    pub toast: bool,
}

/// Every name can be scored for this query.
pub open spec fn all_scorable(apps: Seq<AppModel>, query: Seq<char>) -> bool {
    forall|i: int| 0 <= i < apps.len() ==> scorable(query, (#[trigger] apps[i]).name)
}

/// The list is that of the query, the selected row is one of the list, and the rows in view do not
/// reach past its end.
pub open spec fn picker_wf(m: PickerModel) -> bool {
    &&& m.matches == listed(m.apps, m.query, m.history)
    &&& forall|i: int|
        0 <= i < m.matches.len() ==> 0 <= (#[trigger] m.matches[i]) < m.apps.len()
    &&& 0 <= m.selected
    &&& m.selected < m.matches.len() || (m.selected == 0 && m.matches.len() == 0)
    &&& 0 <= m.scroll
    &&& m.scroll == 0 || m.scroll + VISIBLE_ITEMS <= m.matches.len()
    &&& all_scorable(m.apps, m.query)
    &&& history_wf(m.history)
    &&& m.matches.len() <= m.apps.len() <= usize::MAX
}

/// The picker after its list was made anew: the first row is selected and in view.
pub open spec fn relisted(
    m: PickerModel,
    apps: Seq<AppModel>,
    query: Seq<char>,
    history: HistoryModel,
) -> PickerModel {
    PickerModel {
        apps,
        query,
        matches: listed(apps, query, history),
        selected: 0,
        scroll: 0,
        history,
        pinned: m.pinned,
        toast: m.toast,
    }
}

/// The number that is nearest to `v` from zero to `hi`.
pub open spec fn within(v: int, hi: int) -> int {
    if v < 0 {
        0
    } else if v > hi {
        hi
    } else {
        v
    }
}

/// The first row in view after the row `to` was brought into view.
pub open spec fn scrolled_to(scroll: int, to: int) -> int {
    if to < scroll {
        to
    } else if to >= scroll + VISIBLE_ITEMS {
        to + 1 - VISIBLE_ITEMS
    } else {
        scroll
    }
}

/// The picker after the selection moved by some rows.
pub open spec fn moved(m: PickerModel, delta: int) -> PickerModel {
    if m.matches.len() == 0 {
        m
    } else {
        let to = within(m.selected + delta, m.matches.len() - 1);
        PickerModel { selected: to, scroll: scrolled_to(m.scroll, to), ..m }
    }
}

/// The picker after the view moved by some rows.
pub open spec fn scrolled(m: PickerModel, delta: int) -> PickerModel {
    if m.matches.len() <= VISIBLE_ITEMS {
        m
    } else {
        PickerModel { scroll: within(m.scroll + delta, m.matches.len() - VISIBLE_ITEMS), ..m }
    }
}

/// The application in a row.
pub open spec fn row_app(m: PickerModel, row: int) -> AppModel {
    m.apps[m.matches[row] as int]
}

/// Was the application in this row picked before?
pub open spec fn is_picked_row(m: PickerModel, row: int) -> bool {
    0 <= row < m.matches.len() && m.history.counts.contains_key(row_app(m, row).command)
}

/// Is the application in this row the pinned one?
pub open spec fn is_pin_row(m: PickerModel, row: int) -> bool {
    0 <= row < m.matches.len() && m.pinned == Some(row_app(m, row).command)
}

/// How many of the rows from `from` up to `to` hold applications that were picked before.
pub open spec fn picked_rows(m: PickerModel, from: int, to: int) -> nat
    decreases to - from,
{
    if to <= from {
        0
    } else {
        picked_rows(m, from, to - 1) + if is_picked_row(m, to - 1) {
            1nat
        } else {
            0nat
        }
    }
}

/// The row behind the last one in view.
pub open spec fn view_end(m: PickerModel) -> int {
    if m.scroll + VISIBLE_ITEMS < m.matches.len() {
        m.scroll + VISIBLE_ITEMS
    } else {
        m.matches.len() as int
    }
}

/// The history without a command.
pub open spec fn without(h: HistoryModel, exec: Seq<char>) -> HistoryModel {
    HistoryModel {
        counts: h.counts.remove(exec),
        last: if h.last == Some(exec) {
            None
        } else {
            h.last
        },
    }
}

/// What becomes of the file that holds the pinned command.
#[derive(Debug)]
pub enum PinChange {
    /// It stays as it is.
    Nothing,
    /// It holds this text.
    Write(String),
    /// It is removed.
    Remove,
}

/// What the user picks from.
pub struct PickerState {
    apps: Vec<App>,
    query: String,
    matches: Vec<usize>,
    selected: usize,
    scroll_offset: usize,
    matcher: FuzzyMatcher,
    history: History,
    pinned: Pinned,
    toast: bool,
}

impl View for PickerState {
    type V = PickerModel;

    closed spec fn view(&self) -> PickerModel {
        PickerModel {
            apps: views(self.apps@),
            query: self.query@,
            matches: self.matches@,
            selected: self.selected as int,
            scroll: self.scroll_offset as int,
            history: self.history@,
            pinned: self.pinned@,
            toast: self.toast,
        }
    }
}

impl PickerState {
    /// Is the state of the picker sound?
    pub open spec fn wf(&self) -> bool {
        picker_wf(self@)
    }

    /// A picker without applications. Nothing is pinned.
    pub fn new(history: History) -> (r: PickerState)
        requires
            history_wf(history@),
        ensures
            r.wf(),
            r@ == (PickerModel {
                apps: Seq::empty(),
                query: Seq::empty(),
                matches: Seq::empty(),
                selected: 0,
                scroll: 0,
                history: history@,
                pinned: None,
                toast: false,
            }),
    {
        let r = PickerState {
            apps: Vec::new(),
            query: String::new(),
            matches: Vec::new(),
            selected: 0,
            scroll_offset: 0,
            matcher: new_matcher(),
            history,
            pinned: Pinned::default(),
            toast: false,
        };
        proof {
            reveal(listed);
            assert(views(r.apps@) =~= Seq::<AppModel>::empty());
            assert(recent_rows(Seq::empty(), history@) =~= Seq::<RecentModel>::empty());
            assert(by_recency(Seq::empty(), history@) =~= Seq::<usize>::empty());
        }
        r
    }

    /// Tells the picker what is pinned.
    pub fn set_pinned(&mut self, pinned: Pinned)
        requires
            old(self).wf(),
        ensures
            final(self).wf(),
            final(self)@ == (PickerModel { pinned: pinned@, ..old(self)@ }),
    {
        self.pinned = pinned;
    }

    /// Tells the picker which applications there are.
    pub fn set_apps(&mut self, apps: Vec<App>)
        requires
            old(self).wf(),
            all_scorable(views(apps@), old(self)@.query),
        ensures
            final(self).wf(),
            final(self)@ == relisted(
                old(self)@,
                views(apps@),
                old(self)@.query,
                old(self)@.history,
            ),
    {
        self.apps = apps;
        self.refilter();
    }

    /// Can these applications be listed for the query?
    pub fn can_list(&self, apps: &Vec<App>) -> (r: bool)
        ensures
            r == all_scorable(views(apps@), self@.query),
    {
        names_scorable(apps, &chars_of(self.query.as_str()))
    }

    /// Can this text be typed?
    pub fn can_search(&self, text: &str) -> (r: bool)
        ensures
            r == all_scorable(self@.apps, query_with(self@.query, text@)),
    {
        let chars = chars_of(text);
        let mut query = chars_of(self.query.as_str());
        let mut i: usize = 0;
        assert(chars@.take(0) =~= Seq::<char>::empty());
        while i < chars.len()
            invariant
                i <= chars@.len(),
                query@ == query_with(self@.query, chars@.take(i as int)),
            decreases chars@.len() - i,
        {
            assert(chars@.take(i + 1).drop_last() =~= chars@.take(i as int));
            if !is_control(chars[i]) {
                query.push(chars[i]);
            }
            i += 1;
        }
        assert(chars@.take(i as int) =~= chars@);
        names_scorable(&self.apps, &query)
    }

    /// Are the applications still being looked for?
    pub fn loading(&self) -> (r: bool)
        ensures
            r == (self@.apps.len() == 0),
    {
        assert(views(self.apps@).len() == self.apps@.len());
        self.apps.len() == 0
    }

    /// What is searched for.
    pub fn query(&self) -> (r: &str)
        ensures
            r@ == self@.query,
    {
        self.query.as_str()
    }

    /// Adds a character to the query. Control characters are ignored.
    pub fn push_char(&mut self, c: char)
        requires
            old(self).wf(),
            !is_ctl(c) ==> all_scorable(old(self)@.apps, old(self)@.query.push(c)),
        ensures
            final(self).wf(),
            final(self)@ == typed(old(self)@, c),
    {
        if !is_control(c) {
            self.query.push(c);
            self.refilter();
        }
    }

    /// Takes the last character off the query.
    pub fn pop_char(&mut self)
        requires
            old(self).wf(),
        ensures
            final(self).wf(),
            final(self)@ == untyped(old(self)@),
    {
        proof {
            if self.query@.len() > 0 {
                lemma_scorable_before(self.query@, self.query@.len() - 1);
                assert(self.query@.take(self.query@.len() - 1) =~= self.query@.drop_last());
            }
        }
        let _ = self.query.pop();
        self.refilter();
    }

    /// Moves the selection by some rows, not past the ends of the list, and brings it into view.
    pub fn move_selection(&mut self, delta: isize)
        requires
            old(self).wf(),
        ensures
            final(self).wf(),
            final(self)@ == moved(old(self)@, delta as int),
    {
        if self.matches.len() == 0 {
            return ;
        }
        self.selected = step(self.selected, delta, self.matches.len() - 1);
        if self.selected < self.scroll_offset {
            self.scroll_offset = self.selected;
        } else if self.selected - self.scroll_offset >= VISIBLE_ITEMS {
            self.scroll_offset = self.selected - (VISIBLE_ITEMS - 1);
        }
    }

    /// The application in the selected row.
    pub fn selected_app(&self) -> (r: Option<&App>)
        requires
            self.wf(),
        ensures
            r is Some <==> self@.matches.len() > 0,
            r matches Some(app) ==> app@ == row_app(self@, self@.selected),
    {
        if self.selected < self.matches.len() {
            assert(self@.matches[self.selected as int] < self@.apps.len());
            Some(&self.apps[self.matches[self.selected]])
        } else {
            None
        }
    }

    /// The selected row.
    pub fn selected_index(&self) -> (r: usize)
        ensures
            r == self@.selected,
    {
        self.selected
    }

    /// The first row in view.
    pub fn scroll_offset(&self) -> (r: usize)
        ensures
            r == self@.scroll,
    {
        self.scroll_offset
    }

    /// The number of rows.
    pub fn match_count(&self) -> (r: usize)
        ensures
            r == self@.matches.len(),
    {
        self.matches.len()
    }

    /// The number of rows in view.
    pub fn visible_count(&self) -> (r: usize)
        requires
            self.wf(),
        ensures
            r == view_end(self@) - self@.scroll,
            r == (if self@.matches.len() < VISIBLE_ITEMS {
                self@.matches.len() as int
            } else {
                VISIBLE_ITEMS as int
            }),
    {
        if self.matches.len() < VISIBLE_ITEMS {
            self.matches.len()
        } else {
            VISIBLE_ITEMS
        }
    }

    /// The number of rows in view that hold applications picked before. There are none while
    /// something is searched for.
    pub fn visible_recent_count(&self) -> (r: usize)
        requires
            self.wf(),
        ensures
            r == recent_in_view(self@),
            r <= view_end(self@) - self@.scroll,
    {
        if !self.query.as_str().is_empty() {
            return 0;
        }
        let count: usize = self.visible_count();
        let mut n: usize = 0;
        let mut i: usize = 0;
        while i < count
            invariant
                self.wf(),
                i <= count,
                count == view_end(self@) - self@.scroll,
                n <= i,
                n == picked_rows(self@, self@.scroll, self@.scroll + i),
            decreases count - i,
        {
            if self.is_history_row(self.scroll_offset + i) {
                n += 1;
            }
            i += 1;
        }
        n
    }

    /// Selects a row, or the last one if there are fewer.
    pub fn select(&mut self, idx: usize)
        requires
            old(self).wf(),
        ensures
            final(self).wf(),
            final(self)@ == (PickerModel {
                selected: if old(self)@.matches.len() == 0 {
                    old(self)@.selected
                } else {
                    within(idx as int, old(self)@.matches.len() - 1)
                },
                ..old(self)@
            }),
    {
        if self.matches.len() == 0 {
            return ;
        }
        self.selected = if idx < self.matches.len() {
            idx
        } else {
            self.matches.len() - 1
        };
    }

    /// Was the application in this row picked before?
    pub fn is_history_row(&self, abs: usize) -> (r: bool)
        requires
            self.wf(),
        ensures
            r == is_picked_row(self@, abs as int),
    {
        if abs < self.matches.len() {
            assert(self@.matches[abs as int] < self@.apps.len());
            self.history.has_picked(self.apps[self.matches[abs]].command.as_str())
        } else {
            false
        }
    }

    /// Is the application in this row the pinned one?
    pub fn is_pinned_row(&self, abs: usize) -> (r: bool)
        requires
            self.wf(),
        ensures
            r == is_pin_row(self@, abs as int),
    {
        if abs < self.matches.len() {
            assert(self@.matches[abs as int] < self@.apps.len());
            self.pinned.is(self.apps[self.matches[abs]].command.as_str())
        } else {
            false
        }
    }

    /// Was anything pinned here?
    pub fn welcome_toast(&self) -> (r: bool)
        ensures
            r == self@.toast,
    {
        self.toast
    }

    /// Pins the application in the selected row, or unpins it if it is the pinned one.
    pub fn toggle_pin_selected(&mut self) -> (r: PinChange)
        requires
            old(self).wf(),
        ensures
            final(self).wf(),
            final(self)@ == pin_toggled(old(self)@),
            match r {
                PinChange::Nothing => old(self)@.matches.len() == 0,
                PinChange::Remove => is_pin_row(old(self)@, old(self)@.selected),
                PinChange::Write(text) => {
                    &&& old(self)@.matches.len() > 0
                    &&& !is_pin_row(old(self)@, old(self)@.selected)
                    &&& text@ == row_app(old(self)@, old(self)@.selected).command.push('\n')
                },
            },
    {
        let exec = match self.selected_app() {
            Some(app) => app.command.as_str().to_owned(),
            None => {
                return PinChange::Nothing;
            },
        };
        if self.pinned.is(exec.as_str()) {
            self.pinned.clear();
            PinChange::Remove
        } else {
            let text = self.pinned.set(exec.as_str());
            self.toast = true;
            PinChange::Write(text)
        }
    }

    /// Forgets the application in a row, and gives its command.
    pub fn forget_at(&mut self, abs: usize) -> (r: Option<String>)
        requires
            old(self).wf(),
        ensures
            final(self).wf(),
            r is Some <==> abs < old(self)@.matches.len(),
            r is None ==> final(self)@ == old(self)@,
            r matches Some(exec) ==> {
                &&& exec@ == row_app(old(self)@, abs as int).command
                &&& final(self)@ == forgotten(old(self)@, abs as int)
            },
    {
        if abs >= self.matches.len() {
            return None;
        }
        assert(self@.matches[abs as int] < self@.apps.len());
        let exec = self.apps[self.matches[abs]].command.as_str().to_owned();
        let _ = self.history.forget(exec.as_str(), None);
        self.refilter();
        Some(exec)
    }

    /// Moves the view by some rows. The selection stays where it is.
    pub fn scroll_by(&mut self, delta: isize)
        requires
            old(self).wf(),
        ensures
            final(self).wf(),
            final(self)@ == scrolled(old(self)@, delta as int),
    {
        if self.matches.len() <= VISIBLE_ITEMS {
            return ;
        }
        self.scroll_offset = step(self.scroll_offset, delta, self.matches.len() - VISIBLE_ITEMS);
    }

    /// The rows in view: for each its place in the list, its application and whether it is
    /// selected.
    pub fn visible(&self) -> (r: Vec<(usize, &App, bool)>)
        requires
            self.wf(),
        ensures
            r@.len() == view_end(self@) - self@.scroll,
            forall|i: int|
                0 <= i < r@.len() ==> {
                    &&& (#[trigger] r@[i]).0 == self@.scroll + i
                    &&& r@[i].1@ == row_app(self@, self@.scroll + i)
                    &&& r@[i].2 == (self@.scroll + i == self@.selected)
                },
    {
        let count: usize = self.visible_count();
        let mut out: Vec<(usize, &App, bool)> = Vec::new();
        let mut i: usize = 0;
        while i < count
            invariant
                self.wf(),
                i <= count,
                count == view_end(self@) - self@.scroll,
                out@.len() == i,
                forall|k: int|
                    0 <= k < i ==> {
                        &&& (#[trigger] out@[k]).0 == self@.scroll + k
                        &&& out@[k].1@ == row_app(self@, self@.scroll + k)
                        &&& out@[k].2 == (self@.scroll + k == self@.selected)
                    },
            decreases count - i,
        {
            let abs: usize = self.scroll_offset + i;
            assert(self@.matches[abs as int] < self@.apps.len());
            out.push((abs, &self.apps[self.matches[abs]], abs == self.selected));
            i += 1;
        }
        out
    }

    /// Makes the list anew. The first row is selected and in view.
    fn refilter(&mut self)
        requires
            all_scorable(old(self)@.apps, old(self)@.query),
            history_wf(old(self)@.history),
        ensures
            final(self).wf(),
            final(self)@ == relisted(
                old(self)@,
                old(self)@.apps,
                old(self)@.query,
                old(self)@.history,
            ),
    {
        proof {
            reveal(listed);
        }
        let ghost models = views(self.apps@);
        let count: usize = self.apps.len();
        assert(models.len() == count);
        if self.query.as_str().is_empty() {
            self.matches = rank_recent(&self.apps, &self.history);
            proof {
                recency_lists_each_app_once(models, self.history@);
            }
        } else {
            let mut scores: Vec<Option<u32>> = Vec::new();
            let mut bonuses: Vec<u32> = Vec::new();
            let mut i: usize = 0;
            while i < count
                invariant
                    i <= count,
                    models == views(self.apps@),
                    models.len() == count,
                    self.apps@.len() == count,
                    all_scorable(models, self.query@),
                    scores@.len() == i,
                    bonuses@.len() == i,
                    self.apps == old(self).apps,
                    self.query == old(self).query,
                    self.history == old(self).history,
                    self.pinned == old(self).pinned,
                    self.toast == old(self).toast,
                    forall|k: int|
                        0 <= k < i ==> #[trigger] scores@[k] == pattern_score(
                            self.query@,
                            models[k].name,
                        ),
                    forall|k: int|
                        0 <= k < i ==> #[trigger] bonuses@[k] == bonus(
                            self.history@,
                            models[k].command,
                        ),
                decreases count - i,
            {
                assert(models[i as int] == self.apps@[i as int]@);
                let name = self.apps[i].name.as_str();
                scores.push(fuzzy_score(&mut self.matcher, self.query.as_str(), name));
                bonuses.push(self.history.score_bonus(self.apps[i].command.as_str()));
                i += 1;
            }
            proof {
                assert(scores@ =~= scores_of(models, self.query@));
                assert(bonuses@ =~= bonuses_of(models, self.history@));
                scores_list_each_match_once(scores@, bonuses@);
            }
            self.matches = rank_matches(&scores, &bonuses);
        }
        self.selected = 0;
        self.scroll_offset = 0;
    }
}

/// The picker after a character was typed.
pub open spec fn typed(m: PickerModel, c: char) -> PickerModel {
    if is_ctl(c) {
        m
    } else {
        relisted(m, m.apps, m.query.push(c), m.history)
    }
}

/// The picker after a text was typed.
pub open spec fn typed_all(p: PickerModel, text: Seq<char>) -> PickerModel
    decreases text.len(),
{
    if text.len() == 0 {
        p
    } else {
        typed(typed_all(p, text.drop_last()), text.last())
    }
}

/// The query after a text was typed: its control characters are left out.
pub open spec fn query_with(query: Seq<char>, text: Seq<char>) -> Seq<char>
    decreases text.len(),
{
    if text.len() == 0 {
        query
    } else if is_ctl(text.last()) {
        query_with(query, text.drop_last())
    } else {
        query_with(query, text.drop_last()).push(text.last())
    }
}

/// The picker after the last character was taken off the query.
pub open spec fn untyped(m: PickerModel) -> PickerModel {
    relisted(
        m,
        m.apps,
        if m.query.len() == 0 {
            m.query
        } else {
            m.query.drop_last()
        },
        m.history,
    )
}

/// The picker after the application in a row was forgotten.
pub open spec fn forgotten(m: PickerModel, row: int) -> PickerModel {
    relisted(m, m.apps, m.query, without(m.history, row_app(m, row).command))
}

/// The picker after the selected application was pinned, or unpinned if it was the pinned one.
pub open spec fn pin_toggled(m: PickerModel) -> PickerModel {
    if m.matches.len() == 0 {
        m
    } else if is_pin_row(m, m.selected) {
        PickerModel { pinned: None, ..m }
    } else {
        PickerModel { pinned: Some(row_app(m, m.selected).command), toast: true, ..m }
    }
}

/// The number of rows in view that hold applications picked before, while nothing is searched for.
pub open spec fn recent_in_view(m: PickerModel) -> nat {
    if m.query.len() == 0 {
        picked_rows(m, m.scroll, view_end(m))
    } else {
        0
    }
}

/// Can the names of these applications be scored for the query?
fn names_scorable(apps: &Vec<App>, query: &Vec<char>) -> (r: bool)
    ensures
        r == all_scorable(views(apps@), query@),
{
    let ghost models = views(apps@);
    let fits = query.len() <= MAX_QUERY;
    let short = fits && parts_are_short(query);
    let plain = has_no_marks(query);
    let longest: usize = usize::MAX / (4 * MAX_NEEDLE);
    let mut i: usize = 0;
    while i < apps.len()
        invariant
            i <= apps@.len(),
            models == views(apps@),
            fits == (query@.len() <= MAX_QUERY),
            short == (fits && parts_fit(query@)),
            plain == is_plain(query@),
            longest == usize::MAX as int / (4 * MAX_NEEDLE),
            forall|k: int| 0 <= k < i ==> scorable(query@, (#[trigger] models[k]).name),
        decreases apps@.len() - i,
    {
        let name = chars_of(apps[i].name.as_str());
        let n: usize = name.len();
        assert(models[i as int] == apps@[i as int]@);
        if !(n <= MAX_NAME && n <= longest && fits && (n <= MAX_NEEDLE || short) && (plain
            || !holds_fold(query, &name))) {
            assert(!scorable(query@, models[i as int].name));
            return false;
        }
        i += 1;
    }
    true
}

/// The place `from` moved by `delta`, but not below zero or above `hi`.
fn step(from: usize, delta: isize, hi: usize) -> (r: usize)
    requires
        from <= hi,
    ensures
        r == within(from + delta, hi as int),
{
    if delta >= 0 {
        let d: usize = delta as usize;
        if d >= hi - from {
            hi
        } else {
            from + d
        }
    } else {
        let d: usize = (-(delta + 1)) as usize;
        if d >= from {
            0
        } else {
            from - d - 1
        }
    }
}

pub(crate) proof fn lemma_typed_query(p: PickerModel, text: Seq<char>)
    ensures
        typed_all(p, text).query == query_with(p.query, text),
        typed_all(p, text).apps == p.apps,
    decreases text.len(),
{
    if text.len() > 0 {
        lemma_typed_query(p, text.drop_last());
    }
}

/// Where a text can be typed, its beginning can be typed.
pub(crate) proof fn lemma_query_grows(
    apps: Seq<AppModel>,
    query: Seq<char>,
    text: Seq<char>,
    n: int,
)
    requires
        0 <= n <= text.len(),
        all_scorable(apps, query_with(query, text)),
    ensures
        all_scorable(apps, query_with(query, text.take(n))),
    decreases text.len(),
{
    if n == text.len() {
        assert(text.take(n) =~= text);
    } else {
        let full = query_with(query, text);
        let front = query_with(query, text.drop_last());
        if front != full {
            assert(full.take(full.len() - 1) =~= front);
            lemma_scorable_before(full, full.len() - 1);
        }
        assert(text.drop_last().take(n) =~= text.take(n));
        lemma_query_grows(apps, query, text.drop_last(), n);
    }
}

proof fn lemma_recents_are_ordered()
    ensures
        orders::<Recent>(),
{
    assert forall|a: RecentModel, b: RecentModel| #[trigger]
        <Recent as Ranked>::before(a, b) implies !<Recent as Ranked>::before(b, a) by {
        texts_are_ordered(a.name, b.name);
    }
    assert forall|a: RecentModel, b: RecentModel, c: RecentModel| #[trigger]
        <Recent as Ranked>::before(a, b) && !(#[trigger] <Recent as Ranked>::before(
            c,
            b,
        )) implies <Recent as Ranked>::before(a, c) by {
        if text_before(a.name, b.name) && !text_before(c.name, b.name) {
            lemma_text_order_splits(a.name, b.name, c.name);
        }
    }
}

/// While nothing is searched for, the list holds every application exactly once, those with the
/// higher bonus first and those with equal bonuses by name.
pub proof fn recency_lists_each_app_once(apps: Seq<AppModel>, h: HistoryModel)
    requires
        apps.len() <= usize::MAX,
    ensures
        by_recency(apps, h).len() == apps.len(),
        forall|i: int|
            0 <= i < apps.len() ==> 0 <= (#[trigger] by_recency(apps, h)[i]) < apps.len(),
        by_recency(apps, h).no_duplicates(),
        forall|i: int, j: int|
            0 <= i < j < apps.len() ==> {
                let a = apps[#[trigger] by_recency(apps, h)[i] as int];
                let b = apps[#[trigger] by_recency(apps, h)[j] as int];
                &&& bonus(h, a.command) >= bonus(h, b.command)
                &&& bonus(h, a.command) == bonus(h, b.command) ==> !text_before(b.name, a.name)
            },
{
    let rows = recent_rows(apps, h);
    let r = ranked::<Recent>(rows);
    lemma_recents_are_ordered();
    ranked_list_is_in_order::<Recent>(rows);
    assert(rows.no_duplicates()) by {
        assert forall|i: int, j: int| 0 <= i < rows.len() && 0 <= j < rows.len() && i
            != j implies rows[i] != rows[j] by {
            assert(rows[i].app == i && rows[j].app == j);
        }
    }
    ranked_list_holds_the_same::<Recent>(rows);
    let out = by_recency(apps, h);
    assert forall|i: int| 0 <= i < r.len() implies 0 <= (#[trigger] r[i]).app < apps.len() && r[i]
        == rows[r[i].app as int] by {
        assert(r.contains(r[i]));
        assert(rows.contains(r[i]));
        let k = choose|k: int| 0 <= k < rows.len() && rows[k] == r[i];
        assert(rows[k].app == k);
    }
    assert forall|i: int, j: int| 0 <= i < out.len() && 0 <= j < out.len() && i != j implies out[i]
        != out[j] by {
        assert(r[i] == rows[r[i].app as int]);
        assert(r[j] == rows[r[j].app as int]);
        assert(r[i] != r[j]);
    }
    assert forall|i: int, j: int| 0 <= i < j < apps.len() implies {
        let a = apps[#[trigger] out[i] as int];
        let b = apps[#[trigger] out[j] as int];
        &&& bonus(h, a.command) >= bonus(h, b.command)
        &&& bonus(h, a.command) == bonus(h, b.command) ==> !text_before(b.name, a.name)
    } by {
        assert(!<Recent as Ranked>::before(r[j], r[i]));
        assert(r[i] == rows[r[i].app as int]);
        assert(r[j] == rows[r[j].app as int]);
    }
}

proof fn lemma_scored_rows(scores: Seq<Option<u32>>, bonuses: Seq<u32>)
    requires
        scores.len() <= usize::MAX,
    ensures
        ({
            let rows = scored_rows(scores, bonuses);
            &&& rows.len() <= scores.len()
            &&& forall|k: int| 0 <= k < rows.len() ==> is_scored(scores, bonuses, #[trigger] rows[k])
            &&& forall|k: int, l: int|
                0 <= k < l < rows.len() ==> (#[trigger] rows[k]).app < (#[trigger] rows[l]).app
            &&& forall|i: int|
                0 <= i < scores.len() && (#[trigger] scores[i]) is Some ==> rows.contains(
                    Scored { app: i as usize, score: capped_sum(scores[i]->0, bonuses[i]) },
                )
        }),
    decreases scores.len(),
{
    if scores.len() > 0 {
        let front = scores.drop_last();
        let before = scored_rows(front, bonuses);
        let rows = scored_rows(scores, bonuses);
        lemma_scored_rows(front, bonuses);
        assert forall|k: int| 0 <= k < rows.len() implies is_scored(
            scores,
            bonuses,
            #[trigger] rows[k],
        ) by {
            if k < before.len() {
                assert(is_scored(front, bonuses, before[k]));
                assert(front[before[k].app as int] == scores[before[k].app as int]);
            }
        }
        assert forall|k: int, l: int| 0 <= k < l < rows.len() implies (#[trigger] rows[k]).app < (
        #[trigger] rows[l]).app by {
            assert(is_scored(front, bonuses, before[k]));
            if l < before.len() {
                assert(before[k].app < before[l].app);
            }
        }
        assert forall|i: int| 0 <= i < scores.len() && (
        #[trigger] scores[i]) is Some implies rows.contains(
            Scored { app: i as usize, score: capped_sum(scores[i]->0, bonuses[i]) },
        ) by {
            let row = Scored { app: i as usize, score: capped_sum(scores[i]->0, bonuses[i]) };
            if i < front.len() {
                assert(front[i] == scores[i]);
                assert(before.contains(row));
                let k = choose|k: int| 0 <= k < before.len() && before[k] == row;
                assert(rows[k] == row);
            } else {
                assert(rows[rows.len() - 1] == row);
            }
        }
    }
}

/// The row is that of an application that has a score.
pub open spec fn is_scored(scores: Seq<Option<u32>>, bonuses: Seq<u32>, row: Scored) -> bool {
    &&& 0 <= row.app < scores.len()
    &&& scores[row.app as int] is Some
    &&& row.score == capped_sum(scores[row.app as int]->0, bonuses[row.app as int])
}

/// While something is searched for, the list holds every application that has a score exactly
/// once, and no other; those with the higher sum of score and bonus come first.
pub proof fn scores_list_each_match_once(scores: Seq<Option<u32>>, bonuses: Seq<u32>)
    requires
        scores.len() <= usize::MAX,
        scores.len() == bonuses.len(),
    ensures
        by_score(scores, bonuses).len() <= scores.len(),
        forall|i: int|
            0 <= i < by_score(scores, bonuses).len() ==> {
                &&& 0 <= (#[trigger] by_score(scores, bonuses)[i]) < scores.len()
                &&& scores[by_score(scores, bonuses)[i] as int] is Some
            },
        by_score(scores, bonuses).no_duplicates(),
        forall|i: int|
            0 <= i < scores.len() && (#[trigger] scores[i]) is Some ==> by_score(
                scores,
                bonuses,
            ).contains(i as usize),
        forall|i: int, j: int|
            0 <= i < j < by_score(scores, bonuses).len() ==> {
                let a = #[trigger] by_score(scores, bonuses)[i] as int;
                let b = #[trigger] by_score(scores, bonuses)[j] as int;
                capped_sum(scores[a]->0, bonuses[a]) >= capped_sum(scores[b]->0, bonuses[b])
            },
{
    let rows = scored_rows(scores, bonuses);
    let r = ranked::<Scored>(rows);
    assert(orders::<Scored>());
    lemma_scored_rows(scores, bonuses);
    ranked_list_is_in_order::<Scored>(rows);
    assert(rows.no_duplicates()) by {
        assert forall|i: int, j: int| 0 <= i < rows.len() && 0 <= j < rows.len() && i
            != j implies rows[i] != rows[j] by {
            if i < j {
                assert(rows[i].app < rows[j].app);
            } else {
                assert(rows[j].app < rows[i].app);
            }
        }
    }
    ranked_list_holds_the_same::<Scored>(rows);
    let out = by_score(scores, bonuses);
    assert forall|i: int| 0 <= i < r.len() implies is_scored(scores, bonuses, #[trigger] r[i]) by {
        assert(r.contains(r[i]));
        assert(rows.contains(r[i]));
        let k = choose|k: int| 0 <= k < rows.len() && rows[k] == r[i];
        assert(is_scored(scores, bonuses, rows[k]));
    }
    assert forall|i: int| 0 <= i < out.len() implies 0 <= (#[trigger] out[i]) < scores.len()
        && scores[out[i] as int] is Some by {
        assert(is_scored(scores, bonuses, r[i]));
    }
    assert forall|i: int, j: int| 0 <= i < out.len() && 0 <= j < out.len() && i != j implies out[i]
        != out[j] by {
        assert(is_scored(scores, bonuses, r[i]));
        assert(is_scored(scores, bonuses, r[j]));
        assert(r[i] != r[j]);
    }
    assert forall|i: int| 0 <= i < scores.len() && (
    #[trigger] scores[i]) is Some implies out.contains(i as usize) by {
        let row = Scored { app: i as usize, score: capped_sum(scores[i]->0, bonuses[i]) };
        assert(rows.contains(row));
        assert(r.contains(row));
        let k = choose|k: int| 0 <= k < r.len() && r[k] == row;
        assert(out[k] == i as usize);
    }
    assert forall|i: int, j: int| 0 <= i < j < out.len() implies {
        let a = #[trigger] out[i] as int;
        let b = #[trigger] out[j] as int;
        capped_sum(scores[a]->0, bonuses[a]) >= capped_sum(scores[b]->0, bonuses[b])
    } by {
        assert(!<Scored as Ranked>::before(r[j], r[i]));
        assert(is_scored(scores, bonuses, r[i]));
        assert(is_scored(scores, bonuses, r[j]));
    }
}

/// However far the selection moves, it stays a row of the list and comes into view.
pub proof fn moved_selection_is_in_view(m: PickerModel, delta: int)
    requires
        picker_wf(m),
        m.matches.len() > 0,
    ensures
        picker_wf(moved(m, delta)),
        moved(m, delta).scroll <= moved(m, delta).selected < view_end(moved(m, delta)),
{
}

/// While nothing is searched for, no application that was never picked stands before one that was.
pub proof fn recents_come_first(m: PickerModel, i: int, j: int)
    requires
        picker_wf(m),
        m.query.len() == 0,
        0 <= i < j < m.matches.len(),
        is_picked_row(m, j),
    ensures
        is_picked_row(m, i),
{
    reveal(listed);
    recency_lists_each_app_once(m.apps, m.history);
    let a = m.apps[by_recency(m.apps, m.history)[i] as int];
    let b = m.apps[by_recency(m.apps, m.history)[j] as int];
    picked_commands_have_a_bonus(m.history, b.command);
    picked_commands_have_a_bonus(m.history, a.command);
}

/// The rows in view that were picked before are the first ones in view.
pub proof fn recent_rows_lead_the_view(m: PickerModel, i: int)
    requires
        picker_wf(m),
        m.query.len() == 0,
        m.scroll <= i < view_end(m),
    ensures
        is_picked_row(m, i) <==> i < m.scroll + recent_in_view(m),
{
    lemma_picked_rows(m, view_end(m));
    lemma_prefix(m, i, view_end(m));
}

/// No more rows were picked before than there are.
pub(crate) proof fn lemma_picked_rows(m: PickerModel, to: int)
    requires
        m.scroll <= to,
    ensures
        picked_rows(m, m.scroll, to) <= to - m.scroll,
    decreases to - m.scroll,
{
    if to > m.scroll {
        lemma_picked_rows(m, to - 1);
    }
}

proof fn lemma_prefix(m: PickerModel, i: int, to: int)
    requires
        picker_wf(m),
        m.query.len() == 0,
        m.scroll <= i < to <= m.matches.len(),
    ensures
        is_picked_row(m, i) <==> i < m.scroll + picked_rows(m, m.scroll, to),
    decreases to - m.scroll,
{
    lemma_picked_rows(m, to);
    lemma_picked_rows(m, to - 1);
    if i == to - 1 {
        if is_picked_row(m, i) {
            lemma_all_picked(m, to);
        }
    } else {
        lemma_prefix(m, i, to - 1);
        if is_picked_row(m, to - 1) {
            recents_come_first(m, i, to - 1);
            lemma_all_picked(m, to);
        }
    }
}

proof fn lemma_all_picked(m: PickerModel, to: int)
    requires
        picker_wf(m),
        m.query.len() == 0,
        m.scroll < to <= m.matches.len(),
        is_picked_row(m, to - 1),
    ensures
        picked_rows(m, m.scroll, to) == to - m.scroll,
    decreases to - m.scroll,
{
    if to - 1 > m.scroll {
        recents_come_first(m, to - 2, to - 1);
        lemma_all_picked(m, to - 1);
    } else {
        assert(picked_rows(m, m.scroll, to - 1) == 0);
    }
}

/// A forgotten application is no longer among those picked before.
pub proof fn forgotten_row_is_not_recent(m: PickerModel, row: int, i: int)
    requires
        picker_wf(m),
        0 <= row < m.matches.len(),
        0 <= i < forgotten(m, row).matches.len(),
        row_app(forgotten(m, row), i).command == row_app(m, row).command,
    ensures
        !is_picked_row(forgotten(m, row), i),
{
}

/// Toggling the pin twice pins what was pinned before, if that was nothing or the selected
/// application.
pub proof fn pin_toggled_twice(m: PickerModel)
    requires
        picker_wf(m),
        m.pinned is None || is_pin_row(m, m.selected),
    ensures
        pin_toggled(pin_toggled(m)).pinned == m.pinned,
{
}

/// Taking back a character gives the list that was there before it was typed.
pub proof fn typing_is_undone(m: PickerModel, c: char)
    requires
        picker_wf(m),
        !is_ctl(c),
    ensures
        untyped(typed(m, c)).query == m.query,
        untyped(typed(m, c)).matches == m.matches,
{
    assert(m.query.push(c).drop_last() =~= m.query);
}

/// While something is searched for, the list holds every application whose name matches exactly
/// once, and no other. Of two rows the earlier one has no less of match score and bonus together,
/// the bonus being that of the application's command; a sum counts no more than the largest 32-bit
/// number. Rows with equal sums keep the order of the applications.
pub proof fn better_matches_come_first(apps: Seq<AppModel>, query: Seq<char>, h: HistoryModel)
    requires
        apps.len() <= usize::MAX,
        query.len() > 0,
    ensures
        ({
            let r = listed(apps, query, h);
            &&& r.no_duplicates()
            &&& forall|i: int| 0 <= i < r.len() ==> 0 <= (#[trigger] r[i]) < apps.len()
            &&& forall|k: int|
                0 <= k < apps.len() ==> (r.contains(k as usize) <==> pattern_score(
                    query,
                    (#[trigger] apps[k]).name,
                ) is Some)
            &&& forall|i: int, j: int|
                0 <= i < j < r.len() ==> {
                    let a = apps[#[trigger] r[i] as int];
                    let b = apps[#[trigger] r[j] as int];
                    let first = pattern_score(query, a.name)->0 + bonus(h, a.command);
                    let second = pattern_score(query, b.name)->0 + bonus(h, b.command);
                    &&& first >= second || first >= u32::MAX
                    &&& first <= second || second >= u32::MAX ==> r[i] < r[j]
                }
        }),
{
    reveal(listed);
    let scores = scores_of(apps, query);
    let bonuses = bonuses_of(apps, h);
    let rows = scored_rows(scores, bonuses);
    let sorted = ranked::<Scored>(rows);
    let r = listed(apps, query, h);
    scores_list_each_match_once(scores, bonuses);
    assert(orders::<Scored>());
    lemma_scored_rows(scores, bonuses);
    ranked_list_holds_the_same::<Scored>(rows);
    ranked_list_is_in_order::<Scored>(rows);
    assert forall|i: int| 0 <= i < sorted.len() implies is_scored(
        scores,
        bonuses,
        #[trigger] sorted[i],
    ) by {
        assert(sorted.contains(sorted[i]));
        let k = choose|k: int| 0 <= k < rows.len() && rows[k] == sorted[i];
        assert(is_scored(scores, bonuses, rows[k]));
    }
    assert forall|k: int| 0 <= k < apps.len() implies (r.contains(k as usize) <==> pattern_score(
        query,
        (#[trigger] apps[k]).name,
    ) is Some) by {
        assert(scores[k] == pattern_score(query, apps[k].name));
        if r.contains(k as usize) {
            let i = choose|i: int| 0 <= i < r.len() && r[i] == k as usize;
            assert(scores[r[i] as int] is Some);
        }
    }
    assert forall|i: int, j: int| 0 <= i < j < r.len() implies {
        let a = apps[#[trigger] r[i] as int];
        let b = apps[#[trigger] r[j] as int];
        let first = pattern_score(query, a.name)->0 + bonus(h, a.command);
        let second = pattern_score(query, b.name)->0 + bonus(h, b.command);
        &&& first >= second || first >= u32::MAX
        &&& first <= second || second >= u32::MAX ==> r[i] < r[j]
    } by {
        let a = r[i] as int;
        let b = r[j] as int;
        assert(scores[a] is Some && scores[b] is Some);
        assert(is_scored(scores, bonuses, sorted[i]));
        assert(is_scored(scores, bonuses, sorted[j]));
        assert(!<Scored as Ranked>::before(sorted[j], sorted[i]));
        if !<Scored as Ranked>::before(sorted[i], sorted[j]) {
            equal_ranks_keep_their_order::<Scored>(rows, i, j);
            let (c, d) = choose|c: int, d: int|
                0 <= c < d < rows.len() && #[trigger] rows[c] == sorted[i] && #[trigger] rows[d]
                    == sorted[j];
            assert(rows[c].app < rows[d].app);
        }
    }
}

/// While nothing is searched for, the list holds every application exactly once. Of two rows the
/// earlier one has the higher bonus at its command, or the same bonus and a name that is not
/// behind; with the same name too, the rows keep the order of the applications.
pub proof fn frequent_apps_come_first(apps: Seq<AppModel>, h: HistoryModel)
    requires
        apps.len() <= usize::MAX,
    ensures
        ({
            let r = listed(apps, Seq::empty(), h);
            &&& r.len() == apps.len()
            &&& r.no_duplicates()
            &&& forall|i: int| 0 <= i < r.len() ==> 0 <= (#[trigger] r[i]) < apps.len()
            &&& forall|i: int, j: int|
                0 <= i < j < r.len() ==> {
                    let a = apps[#[trigger] r[i] as int];
                    let b = apps[#[trigger] r[j] as int];
                    ||| bonus(h, a.command) > bonus(h, b.command)
                    ||| bonus(h, a.command) == bonus(h, b.command) && text_before(a.name, b.name)
                    ||| bonus(h, a.command) == bonus(h, b.command) && a.name == b.name && r[i]
                        < r[j]
                }
        }),
{
    reveal(listed);
    let rows = recent_rows(apps, h);
    let sorted = ranked::<Recent>(rows);
    let r = listed(apps, Seq::empty(), h);
    recency_lists_each_app_once(apps, h);
    lemma_recents_are_ordered();
    ranked_list_holds_the_same::<Recent>(rows);
    ranked_list_is_in_order::<Recent>(rows);
    assert forall|i: int| 0 <= i < sorted.len() implies 0 <= (#[trigger] sorted[i]).app < apps.len()
        && sorted[i] == rows[sorted[i].app as int] by {
        assert(sorted.contains(sorted[i]));
        let k = choose|k: int| 0 <= k < rows.len() && rows[k] == sorted[i];
        assert(rows[k].app == k);
    }
    assert forall|i: int, j: int| 0 <= i < j < r.len() implies {
        let a = apps[#[trigger] r[i] as int];
        let b = apps[#[trigger] r[j] as int];
        ||| bonus(h, a.command) > bonus(h, b.command)
        ||| bonus(h, a.command) == bonus(h, b.command) && text_before(a.name, b.name)
        ||| bonus(h, a.command) == bonus(h, b.command) && a.name == b.name && r[i] < r[j]
    } by {
        assert(sorted[i] == rows[sorted[i].app as int]);
        assert(sorted[j] == rows[sorted[j].app as int]);
        assert(!<Recent as Ranked>::before(sorted[j], sorted[i]));
        if !<Recent as Ranked>::before(sorted[i], sorted[j]) {
            texts_are_ordered(sorted[i].name, sorted[j].name);
            equal_ranks_keep_their_order::<Recent>(rows, i, j);
            let (c, d) = choose|c: int, d: int|
                0 <= c < d < rows.len() && #[trigger] rows[c] == sorted[i] && #[trigger] rows[d]
                    == sorted[j];
            assert(rows[c].app == c && rows[d].app == d);
        }
    }
}

/// The selection moves by the number of rows, and stops at the first and the last row. The view
/// follows it only as far as it must to show it among its eight rows.
pub proof fn selection_moves_by_rows(m: PickerModel, delta: int)
    requires
        m.matches.len() > 0,
    ensures
        ({
            let n = moved(m, delta);
            let to = m.selected + delta;
            &&& 0 <= to < m.matches.len() ==> n.selected == to
            &&& to < 0 ==> n.selected == 0
            &&& to >= m.matches.len() ==> n.selected == m.matches.len() - 1
            &&& m.scroll <= n.selected < m.scroll + 8 ==> n.scroll == m.scroll
            &&& n.selected < m.scroll ==> n.scroll == n.selected
            &&& n.selected >= m.scroll + 8 ==> n.scroll + 7 == n.selected
            &&& n == (PickerModel { selected: n.selected, scroll: n.scroll, ..m })
        }),
{
}

/// The view moves by the number of rows, and stops where its eight rows reach the first or the last
/// row. The selection stays where it is, and a list that is in view as a whole does not move.
pub proof fn view_moves_by_rows(m: PickerModel, delta: int)
    ensures
        ({
            let n = scrolled(m, delta);
            let to = m.scroll + delta;
            let most = m.matches.len() - 8;
            &&& most <= 0 ==> n == m
            &&& most > 0 && 0 <= to <= most ==> n.scroll == to
            &&& most > 0 && to < 0 ==> n.scroll == 0
            &&& most > 0 && to > most ==> n.scroll == most
            &&& n == (PickerModel { scroll: n.scroll, ..m })
        }),
{
}

/// In view are eight rows, or those that are left of the list.
pub proof fn view_holds_eight_rows(m: PickerModel)
    requires
        picker_wf(m),
    ensures
        m.scroll <= view_end(m) <= m.matches.len(),
        m.matches.len() >= m.scroll + 8 ==> view_end(m) == m.scroll + 8,
        m.matches.len() < m.scroll + 8 ==> view_end(m) == m.matches.len(),
        m.scroll + recent_in_view(m) <= view_end(m),
        m.query.len() > 0 ==> recent_in_view(m) == 0,
{
    lemma_picked_rows(m, view_end(m));
}

/// A row holds the application that the list names there. It was picked before if the history
/// counts its command, and it is the pinned one if its command is pinned.
pub proof fn rows_go_by_their_command(m: PickerModel, row: int)
    requires
        0 <= row < m.matches.len(),
    ensures
        ({
            let app = m.apps[m.matches[row] as int];
            &&& row_app(m, row) == app
            &&& is_picked_row(m, row) <==> m.history.counts.contains_key(app.command)
            &&& is_pin_row(m, row) <==> m.pinned == Some(app.command)
        }),
{
}

/// Typed text is put behind the query and is searched for from the first row on. Control characters
/// are left out of it; without any other character nothing happens.
pub proof fn typed_text_extends_the_query(m: PickerModel, text: Seq<char>, c: char)
    requires
        forall|i: int|
            0 <= i < text.len() ==> ' ' <= #[trigger] text[i] < '\u{7f}' || text[i] >= '\u{a0}',
        c < ' ' || '\u{7f}' <= c < '\u{a0}',
    ensures
        typed_all(m, text).query == m.query + text,
        typed_all(m, text.push(c)) == typed_all(m, text),
        typed(m, c) == m,
        text.len() > 0 ==> {
            let n = typed_all(m, text);
            &&& n.matches == listed(m.apps, m.query + text, m.history)
            &&& n.selected == 0 && n.scroll == 0
            &&& n.apps == m.apps && n.history == m.history
            &&& n.pinned == m.pinned && n.toast == m.toast
        },
        query_with(m.query, text) == m.query + text,
        query_with(m.query, text.push(c)) == query_with(m.query, text),
    decreases text.len(),
{
    assert(text.push(c).drop_last() =~= text);
    if text.len() == 0 {
        assert(m.query + text =~= m.query);
    } else {
        let front = text.drop_last();
        assert forall|i: int| 0 <= i < front.len() implies ' ' <= #[trigger] front[i] < '\u{7f}'
            || front[i] >= '\u{a0}' by {
            assert(front[i] == text[i]);
        }
        typed_text_extends_the_query(m, front, c);
        assert(text[text.len() - 1] == text.last());
        assert((m.query + front).push(text.last()) =~= m.query + text);
        lemma_typed_keeps(m, front);
    }
}

/// Typing changes the query and the list, and nothing else.
proof fn lemma_typed_keeps(m: PickerModel, text: Seq<char>)
    ensures
        typed_all(m, text).apps == m.apps,
        typed_all(m, text).history == m.history,
        typed_all(m, text).pinned == m.pinned,
        typed_all(m, text).toast == m.toast,
    decreases text.len(),
{
    if text.len() > 0 {
        lemma_typed_keeps(m, text.drop_last());
    }
}

/// Going back takes the last character off the query, if there is one, and lists anew from the first
/// row on.
pub proof fn going_back_takes_the_last_character(m: PickerModel)
    ensures
        ({
            let n = untyped(m);
            &&& m.query.len() > 0 ==> n.query.len() == m.query.len() - 1
            &&& m.query.len() == 0 ==> n.query == m.query
            &&& forall|i: int| 0 <= i < n.query.len() ==> #[trigger] n.query[i] == m.query[i]
            &&& n.matches == listed(m.apps, n.query, m.history)
            &&& n.selected == 0 && n.scroll == 0
            &&& n.apps == m.apps && n.history == m.history
            &&& n.pinned == m.pinned && n.toast == m.toast
        }),
{
}

/// Forgetting a row takes its command, and no other, out of the history, and lists anew from the
/// first row on. The query, the applications and the pin stay.
pub proof fn forgetting_touches_one_command(m: PickerModel, row: int, other: Seq<char>)
    requires
        0 <= row < m.matches.len(),
    ensures
        ({
            let n = forgotten(m, row);
            let command = m.apps[m.matches[row] as int].command;
            &&& !n.history.counts.contains_key(command)
            &&& n.history.last != Some(command)
            &&& other != command ==> {
                &&& n.history.counts.contains_key(other) <==> m.history.counts.contains_key(other)
                &&& m.history.counts.contains_key(other) ==> n.history.counts[other]
                    == m.history.counts[other]
                &&& n.history.last == Some(other) <==> m.history.last == Some(other)
            }
            &&& n.matches == listed(m.apps, m.query, n.history)
            &&& n.selected == 0 && n.scroll == 0
            &&& n.apps == m.apps && n.query == m.query
            &&& n.pinned == m.pinned && n.toast == m.toast
        }),
{
}

/// Toggling the pin unpins the selected application if it is the pinned one, and else pins it and
/// says so. An empty list leaves the pin as it is.
pub proof fn pin_goes_to_the_selection(m: PickerModel)
    requires
        picker_wf(m),
    ensures
        ({
            let n = pin_toggled(m);
            let command = m.apps[m.matches[m.selected] as int].command;
            &&& m.matches.len() == 0 ==> n == m
            &&& m.matches.len() > 0 && m.pinned == Some(command) ==> n.pinned is None && n.toast
                == m.toast
            &&& m.matches.len() > 0 && m.pinned != Some(command) ==> n.pinned == Some(command)
                && n.toast
            &&& n == (PickerModel { pinned: n.pinned, toast: n.toast, ..m })
        }),
{
}

} // verus!
