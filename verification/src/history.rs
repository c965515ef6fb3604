//! Which commands were picked before. Every pick is one line of a history file; how often and
//! how recently a command was picked raises its rank in the picker.

use crate::text::{
    join, joined, lemma_lines_append, lemma_lines_on_one_line, lemma_one_line,
    lemma_trimmed_without_return, lines, lines_complete, lines_end_at_line_feeds, on_one_line,
    push_text, same_text, split_lines, texts, trim, trimmed, without_return,
};
use vstd::hash_map::StringHashMap;
use vstd::prelude::*;

verus! {

/// Added to the score of the command that was picked last.
pub const RECENCY_BONUS: u32 = 64;

/// Added to the score of a command once for every time it was picked.
pub const COUNT_BONUS: u32 = 4;

/// What a history knows: how often each command was picked, and which one came last.
pub struct HistoryModel {
    pub counts: Map<Seq<char>, u32>,
    pub last: Option<Seq<char>>,
}

/// The number of times that `exec` stands in the list.
pub open spec fn occurrences(picks: Seq<Seq<char>>, exec: Seq<char>) -> nat
    decreases picks.len(),
{
    if picks.len() == 0 {
        0
    } else {
        occurrences(picks.drop_last(), exec) + if picks.last() == exec {
            1nat
        } else {
            0nat
        }
    }
}

/// How often each command of the list stands in it.
pub open spec fn counts_of(picks: Seq<Seq<char>>) -> Map<Seq<char>, u32> {
    Map::new(|e: Seq<char>| picks.contains(e), |e: Seq<char>| occurrences(picks, e) as u32)
}

/// What a history that saw these picks knows.
pub open spec fn model_of(picks: Seq<Seq<char>>) -> HistoryModel {
    HistoryModel {
        counts: counts_of(picks),
        last: if picks.len() == 0 {
            None
        } else {
            Some(picks.last())
        },
    }
}

/// The picks that some lines of a history file stand for: what is left of each line without the
/// white space around it, where anything is.
pub open spec fn line_picks(ls: Seq<Seq<char>>) -> Seq<Seq<char>>
    decreases ls.len(),
{
    if ls.len() == 0 {
        Seq::empty()
    } else {
        let before = line_picks(ls.drop_last());
        let pick = trimmed(ls.last());
        if pick.len() == 0 {
            before
        } else {
            before.push(pick)
        }
    }
}

/// The picks that a history file holds, oldest first.
pub open spec fn picks(text: Seq<char>) -> Seq<Seq<char>> {
    line_picks(lines(text))
}

/// The score that a history adds to a command's own.
pub open spec fn bonus(h: HistoryModel, exec: Seq<char>) -> u32 {
    let count = if h.counts.contains_key(exec) {
        h.counts[exec] as int
    } else {
        0
    };
    let by_count = if COUNT_BONUS * count > u32::MAX {
        u32::MAX as int
    } else {
        COUNT_BONUS * count
    };
    if h.last != Some(exec) {
        by_count as u32
    } else if by_count + RECENCY_BONUS > u32::MAX {
        u32::MAX
    } else {
        (by_count + RECENCY_BONUS) as u32
    }
}

/// The lines that are not `exec` with white space around it.
pub open spec fn kept_lines(ls: Seq<Seq<char>>, exec: Seq<char>) -> Seq<Seq<char>>
    decreases ls.len(),
{
    if ls.len() == 0 {
        Seq::empty()
    } else {
        let before = kept_lines(ls.drop_last(), exec);
        if trimmed(ls.last()) == exec {
            before
        } else {
            before.push(ls.last())
        }
    }
}

/// The lines, each followed by a line feed.
pub open spec fn with_line_feeds(ls: Seq<Seq<char>>) -> Seq<char>
    decreases ls.len(),
{
    if ls.len() == 0 {
        Seq::empty()
    } else {
        with_line_feeds(ls.drop_last()) + ls.last() + seq!['\n']
    }
}

/// The history file once `exec` has been forgotten.
pub open spec fn forgotten_text(text: Seq<char>, exec: Seq<char>) -> Seq<char> {
    with_line_feeds(kept_lines(lines(text), exec))
}

/// The list without any `exec`.
pub open spec fn without_pick(picks: Seq<Seq<char>>, exec: Seq<char>) -> Seq<Seq<char>>
    decreases picks.len(),
{
    if picks.len() == 0 {
        Seq::empty()
    } else {
        let before = without_pick(picks.drop_last(), exec);
        if picks.last() == exec {
            before
        } else {
            before.push(picks.last())
        }
    }
}

/// What was picked before.
pub struct History {
    counts: StringHashMap<u32>,
    last: Option<String>,
}

impl View for History {
    type V = HistoryModel;

    closed spec fn view(&self) -> HistoryModel {
        HistoryModel {
            counts: self.counts@,
            last: match self.last {
                Some(s) => Some(s@),
                None => None,
            },
        }
    }
}

/// A command is counted only if it was picked, and the last pick is counted.
pub open spec fn history_wf(h: HistoryModel) -> bool {
    &&& forall|e: Seq<char>| #[trigger] h.counts.contains_key(e) ==> h.counts[e] >= 1
    &&& h.last is Some ==> h.counts.contains_key(h.last->0)
}

impl Default for History {
    fn default() -> (r: History)
        ensures
            r@ == model_of(Seq::empty()),
            history_wf(r@),
    {
        let r = History { counts: StringHashMap::new(), last: None };
        assert(r@.counts =~= counts_of(Seq::empty()));
        r
    }
}

impl History {
    /// Reads a history file. Without one, nothing was picked yet.
    pub fn load(text: Option<&str>) -> (r: History)
        requires
            text matches Some(t) ==> forall|e: Seq<char>| #[trigger]
                occurrences(picks(t@), e) <= u32::MAX,
        ensures
            text matches Some(t) ==> r@ == model_of(picks(t@)),
            text is None ==> r@ == model_of(Seq::empty()),
            history_wf(r@),
    {
        let mut h = History::default();
        if let Some(t) = text {
            let all = split_lines(t);
            let mut i: usize = 0;
            let ghost ls = lines(t@);
            proof {
                assert(texts(all@) == ls);
                assert(all@.len() == texts(all@).len());
                assert(ls.take(0) =~= Seq::<Seq<char>>::empty());
            }
            while i < all.len()
                invariant
                    i <= all@.len(),
                    ls == texts(all@),
                    ls == lines(t@),
                    all@.len() == ls.len(),
                    forall|e: Seq<char>| #[trigger] occurrences(picks(t@), e) <= u32::MAX,
                    h@ == model_of(line_picks(ls.take(i as int))),
                decreases all@.len() - i,
            {
                let pick = trim(all[i].as_str());
                let ghost done = line_picks(ls.take(i as int));
                proof {
                    assert(ls.take(i + 1).drop_last() =~= ls.take(i as int));
                    assert(ls.take(i + 1).last() == all@[i as int]@);
                }
                if !pick.as_str().is_empty() {
                    let ghost now = done.push(pick@);
                    let seen: u32 = match h.counts.get(pick.as_str()) {
                        Some(n) => *n,
                        None => 0,
                    };
                    proof {
                        assert(line_picks(ls.take(i + 1)) == now);
                        lemma_prefix_occurrences(ls, i + 1, pick@);
                        assert(occurrences(picks(t@), pick@) <= u32::MAX);
                        lemma_push_occurrences(done, pick@, pick@);
                        lemma_occurs(done, pick@);
                    }
                    h.counts.insert(pick.clone(), seen + 1);
                    h.last = Some(pick);
                    proof {
                        lemma_counts_push(done, pick@);
                        assert(h@.counts =~= counts_of(now));
                    }
                }
                i += 1;
            }
            assert(ls.take(i as int) =~= ls);
        }
        proof {
            let p = match text {
                Some(t) => picks(t@),
                None => Seq::<Seq<char>>::empty(),
            };
            lemma_model_wf(p);
        }
        h
    }

    /// The command that was picked last.
    pub fn last(&self) -> (r: Option<&str>)
        ensures
            self@.last is Some <==> r is Some,
            r matches Some(s) ==> self@.last == Some(s@),
    {
        match &self.last {
            Some(s) => Some(s.as_str()),
            None => None,
        }
    }

    /// The score that past picks add to the command `exec`.
    pub fn score_bonus(&self, exec: &str) -> (r: u32)
        ensures
            r == bonus(self@, exec@),
    {
        let count: u32 = match self.counts.get(exec) {
            Some(n) => *n,
            None => 0,
        };
        let mut total: u32 = if count > u32::MAX / COUNT_BONUS {
            u32::MAX
        } else {
            count * COUNT_BONUS
        };
        let is_last = match &self.last {
            Some(s) => same_text(s.as_str(), exec),
            None => false,
        };
        if is_last {
            total = total.saturating_add(RECENCY_BONUS);
        }
        total
    }

    /// Was this command picked before?
    pub fn has_picked(&self, exec: &str) -> (r: bool)
        ensures
            r == self@.counts.contains_key(exec@),
    {
        self.counts.contains_key(exec)
    }

    /// The line that is appended to the history file when `exec` is picked.
    pub fn record(exec: &str) -> (r: String)
        ensures
            r@ == exec@.push('\n'),
    {
        let mut line = String::new();
        push_text(&mut line, exec);
        line.push('\n');
        assert(line@ =~= exec@.push('\n'));
        line
    }

    /// Forgets a command: it counts as never picked, and the result is what the history file
    /// holds from then on, if there is such a file.
    pub fn forget(&mut self, exec: &str, text: Option<&str>) -> (r: Option<String>)
        ensures
            final(self)@.counts == old(self)@.counts.remove(exec@),
            final(self)@.last == (if old(self)@.last == Some(exec@) {
                None
            } else {
                old(self)@.last
            }),
            history_wf(old(self)@) ==> history_wf(final(self)@),
            text is Some <==> r is Some,
            text matches Some(t) ==> r->0@ == forgotten_text(t@, exec@),
    {
        self.counts.remove(exec);
        let is_last = match &self.last {
            Some(s) => same_text(s.as_str(), exec),
            None => false,
        };
        if is_last {
            self.last = None;
        }
        proof {
            let before = old(self)@.counts;
            assert(self@.counts =~= before.remove(exec@));
            assert forall|e: Seq<char>| history_wf(old(self)@) && #[trigger]
                self@.counts.contains_key(e) implies self@.counts[e] >= 1 by {
                assert(before.contains_key(e));
            }
        }
        match text {
            Some(t) => Some(forget_in(t, exec)),
            None => None,
        }
    }
}

/// The history file without the lines that stand for `exec`.
pub fn forget_in(text: &str, exec: &str) -> (r: String)
    ensures
        r@ == forgotten_text(text@, exec@),
{
    let all = split_lines(text);
    let mut kept: Vec<String> = Vec::new();
    let mut i: usize = 0;
    let ghost ls = lines(text@);
    assert(texts(all@) == ls);
    assert(all@.len() == texts(all@).len());
    assert(texts(kept@) =~= Seq::<Seq<char>>::empty());
    assert(ls.take(0) =~= Seq::<Seq<char>>::empty());
    while i < all.len()
        invariant
            i <= all@.len(),
            ls == texts(all@),
            all@.len() == ls.len(),
            texts(kept@) == kept_lines(ls.take(i as int), exec@),
        decreases all@.len() - i,
    {
        proof {
            assert(ls.take(i + 1).drop_last() =~= ls.take(i as int));
            assert(ls.take(i + 1).last() == all@[i as int]@);
        }
        let bare = trim(all[i].as_str());
        if !same_text(bare.as_str(), exec) {
            let ghost before = kept@;
            kept.push(all[i].clone());
            assert(texts(kept@) =~= texts(before).push(all@[i as int]@));
        }
        i += 1;
    }
    assert(ls.take(i as int) =~= ls);
    let mut out = join(&kept, "\n");
    proof {
        reveal_strlit("\n");
        assert("\n"@ =~= seq!['\n']);
        lemma_joined_lines(texts(kept@));
    }
    if kept.len() > 0 {
        out.push('\n');
        assert(out@ =~= joined(texts(kept@), seq!['\n']) + seq!['\n']);
    }
    out
}

proof fn lemma_joined_lines(ls: Seq<Seq<char>>)
    ensures
        ls.len() == 0 ==> joined(ls, seq!['\n']) == with_line_feeds(ls),
        ls.len() > 0 ==> joined(ls, seq!['\n']) + seq!['\n'] == with_line_feeds(ls),
    decreases ls.len(),
{
    if ls.len() == 1 {
        reveal_with_fuel(with_line_feeds, 2);
        assert(ls.drop_last() =~= Seq::<Seq<char>>::empty());
        assert(with_line_feeds(ls) =~= ls[0] + seq!['\n']);
    } else if ls.len() > 1 {
        lemma_joined_lines(ls.drop_last());
        assert(joined(ls, seq!['\n']) + seq!['\n'] =~= with_line_feeds(ls));
    }
}

proof fn lemma_push_occurrences(p: Seq<Seq<char>>, pick: Seq<char>, e: Seq<char>)
    ensures
        occurrences(p.push(pick), e) == occurrences(p, e) + if pick == e {
            1nat
        } else {
            0nat
        },
{
    assert(p.push(pick).drop_last() =~= p);
}

proof fn lemma_occurs(p: Seq<Seq<char>>, e: Seq<char>)
    ensures
        p.contains(e) <==> occurrences(p, e) > 0,
    decreases p.len(),
{
    if p.len() > 0 {
        lemma_occurs(p.drop_last(), e);
        let q = p.drop_last();
        assert(p =~= q.push(p.last()));
        if q.contains(e) {
            let i = choose|i: int| 0 <= i < q.len() && q[i] == e;
            assert(p[i] == e);
        }
        if p.contains(e) && p.last() != e {
            let i = choose|i: int| 0 <= i < p.len() && p[i] == e;
            assert(q[i] == e);
        }
        if p.last() == e {
            assert(p[p.len() - 1] == e);
        }
    }
}

proof fn lemma_prefix_occurrences(ls: Seq<Seq<char>>, n: int, e: Seq<char>)
    requires
        0 <= n <= ls.len(),
    ensures
        occurrences(line_picks(ls.take(n)), e) <= occurrences(line_picks(ls), e),
    decreases ls.len(),
{
    if n == ls.len() {
        assert(ls.take(n) =~= ls);
    } else {
        let front = ls.drop_last();
        lemma_prefix_occurrences(front, n, e);
        assert(front.take(n) =~= ls.take(n));
        let pick = trimmed(ls.last());
        if pick.len() > 0 {
            lemma_push_occurrences(line_picks(front), pick, e);
        }
    }
}

proof fn lemma_counts_push(p: Seq<Seq<char>>, pick: Seq<char>)
    requires
        occurrences(p, pick) < u32::MAX,
    ensures
        counts_of(p.push(pick)) =~= counts_of(p).insert(pick, (occurrences(p, pick) + 1) as u32),
{
    let q = p.push(pick);
    assert forall|e: Seq<char>| q.contains(e) <==> (p.contains(e) || e == pick) by {
        lemma_occurs(p, e);
        lemma_occurs(q, e);
        lemma_push_occurrences(p, pick, e);
    }
    assert forall|e: Seq<char>| #[trigger] q.contains(e) implies counts_of(q)[e] == counts_of(
        p,
    ).insert(pick, (occurrences(p, pick) + 1) as u32)[e] by {
        lemma_push_occurrences(p, pick, e);
    }
}

proof fn lemma_model_wf(p: Seq<Seq<char>>)
    requires
        forall|e: Seq<char>| #[trigger] occurrences(p, e) <= u32::MAX,
    ensures
        history_wf(model_of(p)),
{
    assert forall|e: Seq<char>| #[trigger] model_of(p).counts.contains_key(e) implies model_of(
        p,
    ).counts[e] >= 1 by {
        lemma_occurs(p, e);
    }
    if p.len() > 0 {
        assert(p.contains(p[p.len() - 1]));
    }
}

proof fn lemma_line_picks_append(a: Seq<Seq<char>>, b: Seq<Seq<char>>)
    ensures
        line_picks(a + b) == line_picks(a) + line_picks(b),
    decreases b.len(),
{
    if b.len() == 0 {
        assert(a + b =~= a);
        assert(line_picks(a) + line_picks(b) =~= line_picks(a));
    } else {
        assert((a + b).drop_last() =~= a + b.drop_last());
        lemma_line_picks_append(a, b.drop_last());
        assert(line_picks(a + b) =~= line_picks(a) + line_picks(b));
    }
}

/// A pick that was recorded is loaded again: the picks of the file with the recorded line are
/// those from before and then the command that was picked.
pub proof fn recorded_pick_is_loaded(text: Seq<char>, exec: Seq<char>)
    requires
        lines_complete(text),
        on_one_line(exec),
    ensures
        lines_complete(text + exec.push('\n')),
        trimmed(exec).len() > 0 ==> picks(text + exec.push('\n')) == picks(text).push(
            trimmed(exec),
        ),
        trimmed(exec).len() == 0 ==> picks(text + exec.push('\n')) == picks(text),
{
    let line = exec.push('\n');
    assert((text + line).last() == '\n');
    lemma_lines_append(text, line);
    lemma_one_line(exec);
    lemma_trimmed_without_return(exec);
    let one = seq![without_return(exec)];
    lemma_line_picks_append(lines(text), one);
    assert(one.drop_last() =~= Seq::<Seq<char>>::empty());
    reveal_with_fuel(line_picks, 2);
    if trimmed(exec).len() > 0 {
        assert(line_picks(one) =~= seq![trimmed(exec)]);
        assert(picks(text) + line_picks(one) =~= picks(text).push(trimmed(exec)));
    } else {
        assert(line_picks(one) =~= Seq::<Seq<char>>::empty());
        assert(picks(text) + line_picks(one) =~= picks(text));
    }
}

/// What a history knows after one more pick: that command counts once more and came last.
pub proof fn pick_counts_once_more(p: Seq<Seq<char>>, exec: Seq<char>)
    requires
        occurrences(p, exec) < u32::MAX,
    ensures
        model_of(p.push(exec)).last == Some(exec),
        model_of(p.push(exec)).counts == counts_of(p).insert(
            exec,
            (occurrences(p, exec) + 1) as u32,
        ),
{
    lemma_counts_push(p, exec);
}

proof fn lemma_picks_of_line_feeds(ls: Seq<Seq<char>>)
    requires
        forall|i: int| 0 <= i < ls.len() ==> on_one_line(#[trigger] ls[i]),
    ensures
        lines_complete(with_line_feeds(ls)),
        picks(with_line_feeds(ls)) == line_picks(ls),
    decreases ls.len(),
{
    if ls.len() > 0 {
        let front = ls.drop_last();
        assert forall|i: int| 0 <= i < front.len() implies on_one_line(#[trigger] front[i]) by {
            assert(front[i] == ls[i]);
        }
        lemma_picks_of_line_feeds(front);
        assert(on_one_line(ls[ls.len() - 1]));
        recorded_pick_is_loaded(with_line_feeds(front), ls.last());
        assert(with_line_feeds(ls) =~= with_line_feeds(front) + ls.last().push('\n'));
    } else {
        assert(lines(with_line_feeds(ls)) =~= Seq::<Seq<char>>::empty());
    }
}

proof fn lemma_kept_picks(ls: Seq<Seq<char>>, exec: Seq<char>)
    ensures
        line_picks(kept_lines(ls, exec)) == without_pick(line_picks(ls), exec),
    decreases ls.len(),
{
    if ls.len() > 0 {
        let front = ls.drop_last();
        lemma_kept_picks(front, exec);
        let pick = trimmed(ls.last());
        let kept = kept_lines(front, exec);
        assert(kept.push(ls.last()).drop_last() =~= kept);
        assert(line_picks(front).push(pick).drop_last() =~= line_picks(front));
    }
}

proof fn lemma_kept_on_one_line(ls: Seq<Seq<char>>, exec: Seq<char>)
    requires
        forall|i: int| 0 <= i < ls.len() ==> on_one_line(#[trigger] ls[i]),
    ensures
        forall|i: int|
            0 <= i < kept_lines(ls, exec).len() ==> on_one_line(#[trigger] kept_lines(ls, exec)[i]),
    decreases ls.len(),
{
    if ls.len() > 0 {
        let front = ls.drop_last();
        assert forall|i: int| 0 <= i < front.len() implies on_one_line(#[trigger] front[i]) by {
            assert(front[i] == ls[i]);
        }
        lemma_kept_on_one_line(front, exec);
        assert(on_one_line(ls[ls.len() - 1]));
        let before = kept_lines(front, exec);
        assert forall|i: int| 0 <= i < kept_lines(ls, exec).len() implies on_one_line(
            #[trigger] kept_lines(ls, exec)[i],
        ) by {
            if i < before.len() {
                assert(kept_lines(ls, exec)[i] == before[i]);
            }
        }
    }
}

proof fn lemma_without_occurrences(p: Seq<Seq<char>>, exec: Seq<char>, e: Seq<char>)
    ensures
        occurrences(without_pick(p, exec), e) == if e == exec {
            0
        } else {
            occurrences(p, e)
        },
    decreases p.len(),
{
    if p.len() > 0 {
        lemma_without_occurrences(p.drop_last(), exec, e);
        if p.last() != exec {
            lemma_push_occurrences(without_pick(p.drop_last(), exec), p.last(), e);
        }
    }
}

/// A command that was forgotten is not loaded again, and every other command counts as often as
/// before.
pub proof fn forgotten_pick_is_not_loaded(text: Seq<char>, exec: Seq<char>)
    ensures
        lines_complete(forgotten_text(text, exec)),
        picks(forgotten_text(text, exec)) == without_pick(picks(text), exec),
        counts_of(picks(forgotten_text(text, exec))) == counts_of(picks(text)).remove(exec),
{
    lemma_lines_on_one_line(text);
    lemma_kept_on_one_line(lines(text), exec);
    lemma_picks_of_line_feeds(kept_lines(lines(text), exec));
    lemma_kept_picks(lines(text), exec);
    let p = picks(text);
    let q = without_pick(p, exec);
    assert forall|e: Seq<char>| q.contains(e) <==> (p.contains(e) && e != exec) by {
        lemma_occurs(p, e);
        lemma_occurs(q, e);
        lemma_without_occurrences(p, exec, e);
    }
    assert forall|e: Seq<char>| #[trigger] q.contains(e) implies counts_of(q)[e] == counts_of(
        p,
    )[e] by {
        lemma_without_occurrences(p, exec, e);
    }
    assert(counts_of(q) =~= counts_of(p).remove(exec));
}

/// After forgetting a command, the history held in memory and the one read back from the file
/// count the same picks.
pub proof fn forgotten_in_memory_as_on_file(text: Seq<char>, exec: Seq<char>)
    ensures
        model_of(picks(forgotten_text(text, exec))).counts == model_of(
            picks(text),
        ).counts.remove(exec),
        model_of(picks(text)).last != Some(exec) ==> model_of(
            picks(forgotten_text(text, exec)),
        ).last == model_of(picks(text)).last,
{
    forgotten_pick_is_not_loaded(text, exec);
    let p = picks(text);
    if p.len() > 0 && p.last() != exec {
        assert(without_pick(p, exec).last() == p.last());
    }
}

/// A forgotten command has no bonus left.
pub proof fn forgotten_command_has_no_bonus(h: HistoryModel, exec: Seq<char>)
    requires
        !h.counts.contains_key(exec),
        h.last != Some(exec),
    ensures
        bonus(h, exec) == 0,
{
}

/// The command that was picked last outranks every other that was picked fewer than sixteen
/// times more often.
pub proof fn fresh_pick_outranks_stale_one(h: HistoryModel, fresh: Seq<char>, stale: Seq<char>)
    requires
        history_wf(h),
        h.last == Some(fresh),
        stale != fresh,
        h.counts.contains_key(stale) ==> h.counts[stale] < h.counts[fresh] + 16,
        h.counts.contains_key(stale) ==> COUNT_BONUS * h.counts[stale] < u32::MAX,
    ensures
        bonus(h, fresh) > bonus(h, stale),
{
}

/// A command that was picked before has a bonus, and one that never was has none.
pub proof fn picked_commands_have_a_bonus(h: HistoryModel, exec: Seq<char>)
    requires
        history_wf(h),
    ensures
        h.counts.contains_key(exec) <==> bonus(h, exec) > 0,
{
}

/// Every pick is worth 4 points, and the last one 64 more; points beyond what 32 bits hold do not
/// count.
pub proof fn bonus_grows_with_the_picks(h: HistoryModel, exec: Seq<char>)
    ensures
        ({
            let picked = if h.counts.contains_key(exec) {
                h.counts[exec] as int
            } else {
                0
            };
            let fresh = if h.last == Some(exec) {
                64int
            } else {
                0
            };
            &&& 4 * picked + fresh <= u32::MAX ==> bonus(h, exec) == 4 * picked + fresh
            &&& 4 * picked + fresh > u32::MAX ==> bonus(h, exec) == u32::MAX
        }),
{
}

/// A history counts how often each command was picked: a command that was never picked has no
/// count, its first pick is counted as one, and every further pick counts one more, whatever else is
/// picked in between. The last command is the one that was picked last.
pub proof fn picks_are_counted(p: Seq<Seq<char>>, exec: Seq<char>, other: Seq<char>)
    requires
        p.len() < u32::MAX,
    ensures
        model_of(Seq::empty()).last is None,
        model_of(p).counts.contains_key(exec) <==> p.contains(exec),
        model_of(p.push(exec)).last == Some(exec),
        !p.contains(exec) ==> model_of(p.push(exec)).counts[exec] == 1,
        p.contains(exec) ==> model_of(p.push(exec)).counts[exec] == model_of(p).counts[exec] + 1,
        other != exec && p.contains(other) ==> model_of(p.push(exec)).counts[other] == model_of(
            p,
        ).counts[other],
{
    lemma_push_occurrences(p, exec, exec);
    lemma_push_occurrences(p, exec, other);
    lemma_occurs(p, exec);
    lemma_occurs(p, other);
    lemma_few_occurrences(p, exec);
    lemma_few_occurrences(p, other);
    let q = p.push(exec);
    assert(q[p.len() as int] == exec);
    assert(q.contains(exec));
    if p.contains(other) {
        let i = choose|i: int| 0 <= i < p.len() && p[i] == other;
        assert(q[i] == other);
    }
}

/// Nothing occurs more often than there are picks.
proof fn lemma_few_occurrences(p: Seq<Seq<char>>, e: Seq<char>)
    ensures
        occurrences(p, e) <= p.len(),
    decreases p.len(),
{
    if p.len() > 0 {
        lemma_few_occurrences(p.drop_last(), e);
    }
}

/// Every line of the file is a pick, without the white space around it; blank lines are none.
pub proof fn lines_are_picks(line: Seq<char>, rest: Seq<char>)
    requires
        on_one_line(line),
        line.len() == 0 || line.last() != '\r',
    ensures
        picks(line + seq!['\n'] + rest) == (if trimmed(line).len() == 0 {
            picks(rest)
        } else {
            seq![trimmed(line)] + picks(rest)
        }),
        picks(Seq::empty()).len() == 0,
{
    lines_end_at_line_feeds(line, rest);
    lemma_line_picks_append(seq![line], lines(rest));
    reveal_with_fuel(line_picks, 2);
    assert(seq![line].drop_last() =~= Seq::<Seq<char>>::empty());
    assert(line_picks(Seq::<Seq<char>>::empty()) =~= Seq::<Seq<char>>::empty());
    assert(Seq::<Seq<char>>::empty() + picks(rest) =~= picks(rest));
    assert(Seq::<Seq<char>>::empty().push(trimmed(line)) =~= seq![trimmed(line)]);
}

/// Forgetting a command takes out the lines that hold it, whatever white space is around it there,
/// and leaves every other line as it is.
pub proof fn forgetting_goes_line_by_line(line: Seq<char>, rest: Seq<char>, exec: Seq<char>)
    requires
        on_one_line(line),
        line.len() == 0 || line.last() != '\r',
    ensures
        forgotten_text(line + seq!['\n'] + rest, exec) == (if trimmed(line) == exec {
            forgotten_text(rest, exec)
        } else {
            line + seq!['\n'] + forgotten_text(rest, exec)
        }),
        forgotten_text(Seq::empty(), exec).len() == 0,
{
    lines_end_at_line_feeds(line, rest);
    lemma_kept_append(seq![line], lines(rest), exec);
    reveal_with_fuel(kept_lines, 2);
    assert(seq![line].drop_last() =~= Seq::<Seq<char>>::empty());
    let kept = kept_lines(seq![line], exec);
    lemma_line_feeds_append(kept, kept_lines(lines(rest), exec));
    reveal_with_fuel(with_line_feeds, 2);
    if trimmed(line) == exec {
        assert(kept =~= Seq::<Seq<char>>::empty());
        assert(with_line_feeds(kept) =~= Seq::<char>::empty());
        assert(Seq::<char>::empty() + forgotten_text(rest, exec) =~= forgotten_text(rest, exec));
    } else {
        assert(kept =~= seq![line]);
        assert(with_line_feeds(kept) =~= line + seq!['\n']);
    }
}

proof fn lemma_kept_append(a: Seq<Seq<char>>, b: Seq<Seq<char>>, exec: Seq<char>)
    ensures
        kept_lines(a + b, exec) == kept_lines(a, exec) + kept_lines(b, exec),
    decreases b.len(),
{
    if b.len() == 0 {
        assert(a + b =~= a);
        assert(kept_lines(a, exec) + kept_lines(b, exec) =~= kept_lines(a, exec));
    } else {
        lemma_kept_append(a, b.drop_last(), exec);
        assert((a + b).drop_last() =~= a + b.drop_last());
        assert((a + b).last() == b.last());
        assert(kept_lines(a + b, exec) =~= kept_lines(a, exec) + kept_lines(b, exec));
    }
}

proof fn lemma_line_feeds_append(a: Seq<Seq<char>>, b: Seq<Seq<char>>)
    ensures
        with_line_feeds(a + b) == with_line_feeds(a) + with_line_feeds(b),
    decreases b.len(),
{
    if b.len() == 0 {
        assert(a + b =~= a);
        assert(with_line_feeds(a) + with_line_feeds(b) =~= with_line_feeds(a));
    } else {
        lemma_line_feeds_append(a, b.drop_last());
        assert((a + b).drop_last() =~= a + b.drop_last());
        assert((a + b).last() == b.last());
        assert(with_line_feeds(a + b) =~= with_line_feeds(a) + with_line_feeds(b));
    }
}

} // verus!
