//! The applications that can be launched, as their desktop entries describe them.

use crate::rank::{
    equal_ranks_keep_their_order, in_order, insert_in_order, orders, ranked,
    ranked_list_is_in_order, views, Ranked,
};
use crate::text::{
    chars_of, comes_before, is_white, is_word, join, joined, joined_words_part_again,
    lemma_bare_is_trimmed, lemma_joined_words_are_bare, lemma_text_order_splits,
    lemma_words_hold_no_white, on_one_line, same_text, split_words, text_before, texts,
    texts_are_ordered, trim, trimmed, words,
};
use freedesktop_desktop_entry::DesktopEntry;
use vstd::prelude::*;

verus! {

/// An application: its name, the command that starts it and the name of its icon.
#[derive(Clone, Debug)]
pub struct App {
    pub name: String,
    pub command: String,
    pub icon: Option<String>,
}

/// The texts of an application.
pub struct AppModel {
    pub name: Seq<char>,
    pub command: Seq<char>,
    pub icon: Option<Seq<char>>,
}

/// The text that an optional string holds.
pub open spec fn opt_text(s: Option<String>) -> Option<Seq<char>> {
    match s {
        Some(t) => Some(t@),
        None => None,
    }
}

impl View for App {
    type V = AppModel;

    open spec fn view(&self) -> AppModel {
        AppModel { name: self.name@, command: self.command@, icon: opt_text(self.icon) }
    }
}

/// The letters that form a field code behind a percent sign.
pub open spec fn is_field_code(c: char) -> bool {
    ||| c == 'f' || c == 'F' || c == 'u' || c == 'U' || c == 'd' || c == 'D' || c == 'n'
    ||| c == 'N' || c == 'i' || c == 'c' || c == 'k' || c == 'v' || c == 'm'
}

/// The text without its field codes, and with `%%` read as one percent sign. A percent sign in
/// front of anything else stands for itself.
pub open spec fn strip_codes(s: Seq<char>) -> Seq<char>
    decreases s.len(),
{
    if s.len() == 0 {
        Seq::empty()
    } else if s[0] == '%' && s.len() > 1 && is_field_code(s[1]) {
        strip_codes(s.skip(2))
    } else if s[0] == '%' && s.len() > 1 && s[1] == '%' {
        seq!['%'] + strip_codes(s.skip(2))
    } else {
        seq![s[0]] + strip_codes(s.skip(1))
    }
}

/// The command that an `Exec` line stands for: without field codes, and with single spaces
/// between its words.
pub open spec fn sanitized(raw: Seq<char>) -> Seq<char> {
    joined(words(strip_codes(raw)), seq![' '])
}

/// Strips the field codes from an `Exec` line and collapses its white space.
pub fn sanitize_exec(raw: &str) -> (r: String)
    ensures
        r@ == sanitized(raw@),
{
    let chars = chars_of(raw);
    let mut out = String::new();
    let mut i: usize = 0;
    assert(chars@.skip(0) =~= chars@);
    assert(out@ + strip_codes(chars@) =~= strip_codes(chars@));
    while i < chars.len()
        invariant
            i <= chars@.len(),
            chars@ == raw@,
            out@ + strip_codes(chars@.skip(i as int)) == strip_codes(raw@),
        decreases chars@.len() - i,
    {
        let ghost rest = chars@.skip(i as int);
        let ghost before = out@;
        let c = chars[i];
        if c == '%' && i + 1 < chars.len() {
            let next = chars[i + 1];
            assert(rest.skip(2) =~= chars@.skip(i + 2));
            if next == 'f' || next == 'F' || next == 'u' || next == 'U' || next == 'd' || next
                == 'D' || next == 'n' || next == 'N' || next == 'i' || next == 'c' || next == 'k'
                || next == 'v' || next == 'm' {
                i += 2;
                continue ;
            }
            if next == '%' {
                out.push('%');
                assert(before + (seq!['%'] + strip_codes(chars@.skip(i + 2))) =~= out@
                    + strip_codes(chars@.skip(i + 2)));
                i += 2;
                continue ;
            }
        }
        out.push(c);
        assert(rest.skip(1) =~= chars@.skip(i + 1));
        assert(before + (seq![c] + strip_codes(chars@.skip(i + 1))) =~= out@ + strip_codes(
            chars@.skip(i + 1),
        ));
        i += 1;
    }
    assert(chars@.skip(i as int) =~= Seq::<char>::empty());
    assert(out@ + Seq::<char>::empty() =~= out@);
    let parts = split_words(out.as_str());
    proof {
        reveal_strlit(" ");
        assert(" "@ =~= seq![' ']);
    }
    join(&parts, " ")
}

/// What a desktop entry says of its application.
#[derive(Debug)]
pub struct DesktopFields {
    pub no_display: bool,
    pub hidden: Option<String>,
    pub kind: Option<String>,
    pub command: Option<String>,
    pub icon: Option<String>,
    pub name: Option<String>,
}

/// The values of a desktop entry.
pub struct FieldsModel {
    pub no_display: bool,
    pub hidden: Option<Seq<char>>,
    pub kind: Option<Seq<char>>,
    pub command: Option<Seq<char>>,
    pub icon: Option<Seq<char>>,
    /// The name in the entry, in the first of the locales that it is given in.
    pub name: Option<Seq<char>>,
}

/// What `DesktopEntry::from_str` and the entry's accessors give for the file at `path` with this
/// text, read with these locales; `None` where the text is no desktop entry.
pub uninterp spec fn desktop_entry(
    path: Seq<char>,
    text: Seq<char>,
    locales: Seq<Seq<char>>,
) -> Option<FieldsModel>;

impl View for DesktopFields {
    type V = FieldsModel;

    open spec fn view(&self) -> FieldsModel {
        FieldsModel {
            no_display: self.no_display,
            hidden: opt_text(self.hidden),
            kind: opt_text(self.kind),
            command: opt_text(self.command),
            icon: opt_text(self.icon),
            name: opt_text(self.name),
        }
    }
}

/// Calls `DesktopEntry::from_str` and reads the entry through its accessors `no_display`,
/// `desktop_entry`, `type_`, `exec`, `icon` and `name`. The claim: what they give depends on the
/// arguments alone. The crate is built without its feature for translations by the system.
#[verifier::external_body]
fn read_entry(path: &str, text: &str, locales: &Vec<String>) -> (r: Option<DesktopFields>)
    ensures
        r is Some <==> desktop_entry(path@, text@, texts(locales@)) is Some,
        r matches Some(f) ==> desktop_entry(path@, text@, texts(locales@)) == Some(f@),
{
    let entry = DesktopEntry::from_str(path, text, Some(locales.as_slice())).ok()?;
    Some(DesktopFields {
        no_display: entry.no_display(),
        hidden: entry.desktop_entry("Hidden").map(str::to_string),
        kind: entry.type_().map(str::to_string),
        command: entry.exec().map(str::to_string),
        icon: entry.icon().map(str::to_string),
        name: entry.name(locales).map(|s| s.to_string()),
    })
}

/// Is the application of an entry with these values offered at all?
pub open spec fn is_listed(e: FieldsModel) -> bool {
    &&& !e.no_display
    &&& e.hidden != Some("true"@)
    &&& e.kind is Some ==> e.kind == Some("Application"@)
    &&& e.command is Some
    &&& trimmed(sanitized(e.command->0)).len() > 0
}

/// The name that an application is shown under: the one in its entry, or else the stem of the
/// file's name, or else a question mark.
pub open spec fn shown_name(name: Option<Seq<char>>, stem: Option<Seq<char>>) -> Seq<char> {
    match name {
        Some(n) => n,
        None => match stem {
            Some(s) => s,
            None => "?"@,
        },
    }
}

/// The application of an entry with these values.
pub open spec fn described(e: FieldsModel, stem: Option<Seq<char>>) -> AppModel {
    AppModel {
        name: shown_name(e.name, stem),
        command: sanitized(e.command->0),
        icon: e.icon,
    }
}

/// The application that a desktop entry with these values describes, if it is to be offered.
pub fn app_of(fields: DesktopFields, stem: Option<String>) -> (r: Option<App>)
    ensures
        r is Some <==> is_listed(fields@),
        r matches Some(app) ==> app@ == described(fields@, opt_text(stem)),
{
    if fields.no_display {
        return None;
    }
    if let Some(v) = &fields.hidden {
        if same_text(v.as_str(), "true") {
            return None;
        }
    }
    if let Some(t) = &fields.kind {
        if !same_text(t.as_str(), "Application") {
            return None;
        }
    }
    let command = match &fields.command {
        Some(raw) => sanitize_exec(raw.as_str()),
        None => {
            return None;
        },
    };
    let bare = trim(command.as_str());
    if bare.as_str().is_empty() {
        return None;
    }
    let name = match fields.name {
        Some(n) => n,
        None => match stem {
            Some(s) => s,
            None => "?".to_owned(),
        },
    };
    Some(App { name, command, icon: fields.icon })
}

/// The application that the desktop entry at `path` describes, if its text is one and the
/// application is to be offered. `stem` is the file's name without its extension.
pub fn app_from_entry(path: &str, text: &str, locales: &Vec<String>, stem: Option<String>) -> (r:
    Option<App>)
    ensures
        match desktop_entry(path@, text@, texts(locales@)) {
            Some(e) => {
                &&& r is Some <==> is_listed(e)
                &&& r matches Some(app) ==> app@ == described(e, opt_text(stem))
            },
            None => r is None,
        },
{
    match read_entry(path, text, locales) {
        Some(fields) => app_of(fields, stem),
        None => None,
    }
}

/// The text in lower case, as `str::to_lowercase` writes it.
pub uninterp spec fn lowercase(s: Seq<char>) -> Seq<char>;

/// Calls `str::to_lowercase`. The claim: the result depends on the text alone.
#[verifier::external_body]
pub(crate) fn to_lowercase(s: &str) -> (r: String)
    ensures
        r@ == lowercase(s@),
{
    s.to_lowercase()
}

impl Ranked for App {
    open spec fn before(a: AppModel, b: AppModel) -> bool {
        text_before(lowercase(a.name), lowercase(b.name))
    }

    fn goes_before(&self, other: &Self) -> (r: bool) {
        let a = to_lowercase(self.name.as_str());
        let b = to_lowercase(other.name.as_str());
        comes_before(a.as_str(), b.as_str())
    }
}

/// The list without every application whose command is that of the one before it.
pub open spec fn without_repeats(list: Seq<AppModel>) -> Seq<AppModel>
    decreases list.len(),
{
    if list.len() == 0 {
        Seq::empty()
    } else {
        let front = without_repeats(list.drop_last());
        if front.len() > 0 && front.last().command == list.last().command {
            front
        } else {
            front.push(list.last())
        }
    }
}

/// The applications as they are offered: ordered by name without regard to case, and one of
/// several in a row that run the same command.
pub fn arrange(apps: Vec<App>) -> (r: Vec<App>)
    ensures
        views(r@) == without_repeats(ranked::<App>(views(apps@))),
{
    let ghost all = views(apps@);
    let mut sorted: Vec<App> = Vec::new();
    assert(views(sorted@) =~= Seq::<AppModel>::empty());
    assert(all.take(0) =~= Seq::<AppModel>::empty());
    for app in it: apps
        invariant
            it.seq() == apps@,
            all == views(apps@),
            views(sorted@) == ranked::<App>(all.take(it.index() as int)),
    {
        proof {
            let n = it.index() as int;
            assert(all.take(n + 1).drop_last() =~= all.take(n));
            assert(all.take(n + 1).last() == app@);
        }
        insert_in_order(&mut sorted, app);
    }
    assert(all.take(all.len() as int) =~= all);
    let ghost order = views(sorted@);
    let mut out: Vec<App> = Vec::new();
    assert(views(out@) =~= Seq::<AppModel>::empty());
    assert(order.take(0) =~= Seq::<AppModel>::empty());
    for app in it: sorted
        invariant
            it.seq() == sorted@,
            order == views(sorted@),
            views(out@) == without_repeats(order.take(it.index() as int)),
            out@.len() == views(out@).len(),
    {
        proof {
            let n = it.index() as int;
            assert(order.take(n + 1).drop_last() =~= order.take(n));
            assert(order.take(n + 1).last() == app@);
        }
        let repeats = out.len() > 0 && same_text(
            out[out.len() - 1].command.as_str(),
            app.command.as_str(),
        );
        if !repeats {
            let ghost before = out@;
            out.push(app);
            assert(views(out@) =~= views(before).push(app@));
        }
    }
    assert(order.take(order.len() as int) =~= order);
    out
}

/// A command without field codes has no white space around it and stays on one line, so that a
/// history file and the file of the pinned command give it back as it is.
pub proof fn sanitized_command_is_bare(raw: Seq<char>)
    ensures
        trimmed(sanitized(raw)) == sanitized(raw),
        on_one_line(sanitized(raw)),
        sanitized(raw).len() > 0 <==> words(strip_codes(raw)).len() > 0,
{
    let list = words(strip_codes(raw));
    lemma_words_hold_no_white(strip_codes(raw));
    lemma_joined_words_are_bare(list);
    lemma_bare_is_trimmed(sanitized(raw));
}

/// Text without a percent sign keeps all its words.
pub proof fn text_without_codes_keeps_its_words(raw: Seq<char>)
    requires
        forall|i: int| 0 <= i < raw.len() ==> raw[i] != '%',
    ensures
        strip_codes(raw) == raw,
        sanitized(raw) == joined(words(raw), seq![' ']),
    decreases raw.len(),
{
    if raw.len() > 0 {
        let t = raw.skip(1);
        assert forall|i: int| 0 <= i < t.len() implies t[i] != '%' by {
            assert(t[i] == raw[i + 1]);
        }
        text_without_codes_keeps_its_words(t);
        assert(seq![raw[0]] + t =~= raw);
    }
}

/// Names are ordered without regard to case, in the order of code points.
pub proof fn apps_are_ordered()
    ensures
        orders::<App>(),
{
    assert forall|a: AppModel, b: AppModel| #[trigger] App::before(a, b) implies !App::before(
        b,
        a,
    ) by {
        texts_are_ordered(lowercase(a.name), lowercase(b.name));
    }
    assert forall|a: AppModel, b: AppModel, c: AppModel| #[trigger]
        App::before(a, b) && !(#[trigger] App::before(c, b)) implies App::before(a, c) by {
        lemma_text_order_splits(lowercase(a.name), lowercase(b.name), lowercase(c.name));
    }
}

proof fn lemma_kept_apps_are_listed(list: Seq<AppModel>)
    ensures
        without_repeats(list).len() <= list.len(),
        forall|i: int|
            0 <= i < without_repeats(list).len() ==> list.contains(
                #[trigger] without_repeats(list)[i],
            ),
    decreases list.len(),
{
    if list.len() > 0 {
        let front = list.drop_last();
        let kept = without_repeats(front);
        let r = without_repeats(list);
        lemma_kept_apps_are_listed(front);
        assert forall|i: int| 0 <= i < r.len() implies list.contains(#[trigger] r[i]) by {
            if i < kept.len() {
                assert(front.contains(kept[i]));
                let k = choose|k: int| 0 <= k < front.len() && front[k] == kept[i];
                assert(list[k] == r[i]);
            } else {
                assert(list[list.len() - 1] == r[i]);
            }
        }
    }
}

proof fn lemma_kept_apps_are_in_order(list: Seq<AppModel>)
    requires
        in_order::<App>(list),
    ensures
        in_order::<App>(without_repeats(list)),
    decreases list.len(),
{
    if list.len() > 0 {
        let front = list.drop_last();
        let kept = without_repeats(front);
        let r = without_repeats(list);
        lemma_kept_apps_are_listed(front);
        assert(in_order::<App>(front)) by {
            assert forall|i: int, j: int| 0 <= i < j < front.len() implies !App::before(
                #[trigger] front[j],
                #[trigger] front[i],
            ) by {
                assert(front[i] == list[i] && front[j] == list[j]);
            }
        }
        lemma_kept_apps_are_in_order(front);
        assert forall|i: int, j: int| 0 <= i < j < r.len() implies !App::before(
            #[trigger] r[j],
            #[trigger] r[i],
        ) by {
            if j < kept.len() {
                assert(kept[i] == r[i] && kept[j] == r[j]);
            } else {
                assert(front.contains(kept[i]));
                let k = choose|k: int| 0 <= k < front.len() && front[k] == kept[i];
                assert(list[k] == r[i]);
                assert(list[list.len() - 1] == r[j]);
            }
        }
    }
}

/// One of the applications runs this command.
pub open spec fn offers(list: Seq<AppModel>, command: Seq<char>) -> bool {
    exists|i: int| 0 <= i < list.len() && (#[trigger] list[i]).command == command
}

proof fn lemma_kept_apps_offer_all(list: Seq<AppModel>, command: Seq<char>)
    requires
        offers(list, command),
    ensures
        offers(without_repeats(list), command),
    decreases list.len(),
{
    let front = list.drop_last();
    let kept = without_repeats(front);
    let r = without_repeats(list);
    let j = choose|j: int| 0 <= j < list.len() && (#[trigger] list[j]).command == command;
    if j < front.len() {
        assert(front[j].command == command);
        lemma_kept_apps_offer_all(front, command);
        let i = choose|i: int| 0 <= i < kept.len() && (#[trigger] kept[i]).command == command;
        assert(r[i].command == command);
    } else {
        assert(r[r.len() - 1].command == command);
    }
}

proof fn lemma_kept_neighbours_differ(list: Seq<AppModel>)
    ensures
        forall|i: int|
            #![trigger without_repeats(list)[i]]
            0 < i < without_repeats(list).len() ==> without_repeats(list)[i].command
                != without_repeats(list)[i - 1].command,
    decreases list.len(),
{
    if list.len() > 0 {
        let front = list.drop_last();
        let kept = without_repeats(front);
        let r = without_repeats(list);
        lemma_kept_neighbours_differ(front);
        assert forall|i: int|
            #![trigger r[i]]
            0 < i < r.len() implies r[i].command != r[i - 1].command by {
            if i < kept.len() {
                assert(r[i] == kept[i]);
                assert(r[i - 1] == kept[i - 1]);
            }
        }
    }
}

/// The list that is offered is ordered by name, holds no two neighbours with the same command,
/// holds only applications that were found, and still has one for every command that was found.
pub proof fn arranged_list(apps: Seq<AppModel>)
    ensures
        ({
            let r = without_repeats(ranked::<App>(apps));
            &&& in_order::<App>(r)
            &&& forall|i: int| 0 <= i < r.len() ==> apps.contains(#[trigger] r[i])
            &&& forall|i: int|
                #![trigger r[i]]
                0 < i < r.len() ==> r[i].command != r[i - 1].command
            &&& forall|command: Seq<char>| #[trigger]
                offers(apps, command) ==> offers(r, command)
        }),
{
    let order = ranked::<App>(apps);
    let r = without_repeats(order);
    apps_are_ordered();
    ranked_list_is_in_order::<App>(apps);
    lemma_kept_apps_are_listed(order);
    lemma_kept_apps_are_in_order(order);
    lemma_kept_neighbours_differ(order);
    assert forall|i: int| 0 <= i < r.len() implies apps.contains(#[trigger] r[i]) by {
        broadcast use vstd::seq_lib::group_to_multiset_ensures;

        assert(order.contains(r[i]));
        assert(order.to_multiset().contains(r[i]));
        assert(apps.to_multiset().contains(r[i]));
    }
    assert forall|command: Seq<char>| #[trigger] offers(apps, command) implies offers(
        r,
        command,
    ) by {
        broadcast use vstd::seq_lib::group_to_multiset_ensures;

        let j = choose|j: int| 0 <= j < apps.len() && (#[trigger] apps[j]).command == command;
        assert(apps.contains(apps[j]));
        assert(apps.to_multiset().contains(apps[j]));
        assert(order.to_multiset().contains(apps[j]));
        assert(order.contains(apps[j]));
        let k = choose|k: int| 0 <= k < order.len() && order[k] == apps[j];
        assert(order[k].command == command);
        lemma_kept_apps_offer_all(order, command);
    }
}

/// What stands before the first percent sign stays.
proof fn lemma_strip_prefix(a: Seq<char>, rest: Seq<char>)
    requires
        !a.contains('%'),
    ensures
        strip_codes(a + rest) == a + strip_codes(rest),
    decreases a.len(),
{
    let s = a + rest;
    if a.len() == 0 {
        assert(s =~= rest);
        assert(a + strip_codes(rest) =~= strip_codes(rest));
    } else {
        assert(a.contains(a[0]));
        assert(s[0] == a[0]);
        let t = a.drop_first();
        assert forall|i: int| 0 <= i < t.len() implies t[i] != '%' by {
            assert(t[i] == a[i + 1] && a.contains(a[i + 1]));
        }
        lemma_strip_prefix(t, rest);
        assert(s.skip(1) =~= t + rest);
        assert(seq![a[0]] + (t + strip_codes(rest)) =~= a + strip_codes(rest));
    }
}

/// A field code is removed alone: what stands before it stays, and so does what stands behind it,
/// except for the field codes in it.
pub proof fn field_code_is_removed_alone(a: Seq<char>, c: char, b: Seq<char>)
    requires
        !a.contains('%'),
        c == 'f' || c == 'F' || c == 'u' || c == 'U' || c == 'd' || c == 'D' || c == 'n' || c == 'N'
            || c == 'i' || c == 'c' || c == 'k' || c == 'v' || c == 'm',
    ensures
        strip_codes(a + seq!['%', c] + b) == a + strip_codes(b),
{
    let rest = seq!['%', c] + b;
    lemma_strip_prefix(a, rest);
    assert(a + seq!['%', c] + b =~= a + rest);
    assert(rest.skip(2) =~= b);
}

/// Two percent signs stand for one, and the second of them starts no field code.
pub proof fn double_percent_is_one(a: Seq<char>, b: Seq<char>)
    requires
        !a.contains('%'),
    ensures
        strip_codes(a + seq!['%', '%'] + b) == a + seq!['%'] + strip_codes(b),
{
    let rest = seq!['%', '%'] + b;
    lemma_strip_prefix(a, rest);
    assert(a + seq!['%', '%'] + b =~= a + rest);
    assert(rest.skip(2) =~= b);
    assert(a + (seq!['%'] + strip_codes(b)) =~= a + seq!['%'] + strip_codes(b));
}

/// A percent sign before any other character stays with that character, and one at the end stays.
pub proof fn other_percent_signs_stay(a: Seq<char>, c: char, b: Seq<char>)
    requires
        !a.contains('%'),
        c != '%',
        c != 'f' && c != 'F' && c != 'u' && c != 'U' && c != 'd' && c != 'D' && c != 'n' && c != 'N'
            && c != 'i' && c != 'c' && c != 'k' && c != 'v' && c != 'm',
    ensures
        strip_codes(a + seq!['%', c] + b) == a + seq!['%', c] + strip_codes(b),
        strip_codes(a.push('%')) == a.push('%'),
{
    let rest = seq!['%', c] + b;
    lemma_strip_prefix(a, rest);
    assert(a + seq!['%', c] + b =~= a + rest);
    assert(!seq![c].contains('%'));
    lemma_strip_prefix(seq![c], b);
    assert(rest.skip(1) =~= seq![c] + b);
    assert(a + (seq!['%'] + (seq![c] + strip_codes(b))) =~= a + seq!['%', c] + strip_codes(b));
    lemma_strip_prefix(a, seq!['%']);
    assert(seq!['%'].skip(1) =~= Seq::<char>::empty());
    assert(strip_codes(seq!['%'].skip(1)) =~= Seq::<char>::empty());
    assert(strip_codes(seq!['%']) =~= seq!['%']);
    assert(a + seq!['%'] =~= a.push('%'));
}

/// The command has the words of the `Exec` line without its field codes, with one space between
/// neighbours.
pub proof fn command_keeps_its_words(raw: Seq<char>)
    ensures
        words(sanitized(raw)) == words(strip_codes(raw)),
        forall|i: int|
            0 <= i < sanitized(raw).len() && is_white(#[trigger] sanitized(raw)[i]) ==> {
                &&& sanitized(raw)[i] == ' '
                &&& 0 < i < sanitized(raw).len() - 1
                &&& !is_white(sanitized(raw)[i - 1])
                &&& !is_white(sanitized(raw)[i + 1])
            },
{
    let list = words(strip_codes(raw));
    lemma_words_hold_no_white(strip_codes(raw));
    joined_words_part_again(list);
    lemma_joined_spaces(list);
}

proof fn lemma_joined_spaces(list: Seq<Seq<char>>)
    requires
        forall|i: int| 0 <= i < list.len() ==> is_word(#[trigger] list[i]),
    ensures
        ({
            let s = joined(list, seq![' ']);
            &&& list.len() > 0 ==> s.len() > 0 && !is_white(s[0]) && !is_white(s[s.len() - 1])
            &&& forall|i: int|
                0 <= i < s.len() && is_white(#[trigger] s[i]) ==> s[i] == ' ' && 0 < i < s.len() - 1
                    && !is_white(s[i - 1]) && !is_white(s[i + 1])
        }),
    decreases list.len(),
{
    if list.len() == 1 {
        assert(is_word(list[0]));
    } else if list.len() > 1 {
        let front = list.drop_last();
        let last = list.last();
        assert forall|i: int| 0 <= i < front.len() implies is_word(#[trigger] front[i]) by {
            assert(front[i] == list[i]);
        }
        lemma_joined_spaces(front);
        assert(is_word(list[list.len() - 1]));
        let f = joined(front, seq![' ']);
        let s = joined(list, seq![' ']);
        assert(s == f + seq![' '] + last);
        let n = f.len() as int;
        assert(s[0] == f[0]);
        assert(s[n - 1] == f[n - 1] && s[n] == ' ' && s[n + 1] == last[0]);
        assert(s[s.len() - 1] == last[last.len() - 1]);
        assert forall|i: int| 0 <= i < s.len() && is_white(#[trigger] s[i]) implies s[i] == ' ' && 0
            < i < s.len() - 1 && !is_white(s[i - 1]) && !is_white(s[i + 1]) by {
            if i < n {
                assert(s[i] == f[i]);
                assert(s[i - 1] == f[i - 1] && s[i + 1] == f[i + 1]);
            } else if i > n {
                assert(s[i] == last[i - n - 1]);
            }
        }
    }
}

/// An application is offered if its entry is one of an application, is shown, and runs a command.
pub proof fn offered_entries_run_something(e: FieldsModel)
    ensures
        is_listed(e) <==> {
            &&& !e.no_display
            &&& e.hidden is None || e.hidden->0 != seq!['t', 'r', 'u', 'e']
            &&& e.kind is None || e.kind->0 == seq![
                'A',
                'p',
                'p',
                'l',
                'i',
                'c',
                'a',
                't',
                'i',
                'o',
                'n',
            ]
            &&& e.command is Some
            &&& words(strip_codes(e.command->0)).len() > 0
        },
{
    reveal_strlit("true");
    reveal_strlit("Application");
    assert("true"@ =~= seq!['t', 'r', 'u', 'e']);
    assert("Application"@ =~= seq!['A', 'p', 'p', 'l', 'i', 'c', 'a', 't', 'i', 'o', 'n']);
    if e.command is Some {
        sanitized_command_is_bare(e.command->0);
    }
}

/// An application goes by the name in its entry, or else by the name of the file, and has the
/// entry's icon.
pub proof fn entry_names_the_application(e: FieldsModel, stem: Option<Seq<char>>)
    ensures
        ({
            let d = described(e, stem);
            &&& e.name matches Some(n) ==> d.name == n
            &&& e.name is None ==> (stem matches Some(s) ==> d.name == s)
            &&& e.name is None && stem is None ==> d.name == seq!['?']
            &&& d.icon == e.icon
            &&& e.command matches Some(c) ==> words(d.command) == words(strip_codes(c))
        }),
{
    reveal_strlit("?");
    assert("?"@ =~= seq!['?']);
    if e.command is Some {
        command_keeps_its_words(e.command->0);
    }
}

/// Of neighbours with the same command the first one stays.
pub proof fn first_of_a_run_stays(list: Seq<AppModel>, app: AppModel)
    ensures
        without_repeats(Seq::empty()).len() == 0,
        without_repeats(seq![app]) == seq![app],
        list.len() > 0 ==> without_repeats(list.push(app)) == (if list.last().command == app.command {
            without_repeats(list)
        } else {
            without_repeats(list).push(app)
        }),
{
    assert(list.push(app).drop_last() =~= list);
    assert(seq![app].drop_last() =~= Seq::<AppModel>::empty());
    assert(without_repeats(Seq::<AppModel>::empty()) =~= Seq::<AppModel>::empty());
    assert(without_repeats(seq![app]) =~= seq![app]);
    if list.len() > 0 {
        lemma_last_kept(list);
    }
}

/// What was kept last has the command of the last application.
proof fn lemma_last_kept(list: Seq<AppModel>)
    requires
        list.len() > 0,
    ensures
        without_repeats(list).len() > 0,
        without_repeats(list).last().command == list.last().command,
{
}

/// Applications are ordered by name in small letters, and those with equal names keep the order in
/// which they were found. The list that is offered has this order too.
pub proof fn offered_list_is_ordered_by_name(apps: Seq<AppModel>)
    ensures
        ({
            let offered = without_repeats(ranked::<App>(apps));
            forall|i: int, j: int|
                0 <= i < j < offered.len() ==> !text_before(
                    lowercase((#[trigger] offered[j]).name),
                    lowercase((#[trigger] offered[i]).name),
                )
        }),
        ({
            let r = ranked::<App>(apps);
            &&& r.len() == apps.len()
            &&& forall|i: int, j: int|
                0 <= i < j < r.len() ==> {
                    let a = lowercase((#[trigger] r[i]).name);
                    let b = lowercase((#[trigger] r[j]).name);
                    ||| text_before(a, b)
                    ||| a == b && exists|k: int, l: int|
                        0 <= k < l < apps.len() && #[trigger] apps[k] == r[i]
                            && #[trigger] apps[l] == r[j]
                }
        }),
{
    let r = ranked::<App>(apps);
    let offered = without_repeats(r);
    apps_are_ordered();
    ranked_list_is_in_order::<App>(apps);
    arranged_list(apps);
    assert forall|i: int, j: int| 0 <= i < j < offered.len() implies !text_before(
        lowercase((#[trigger] offered[j]).name),
        lowercase((#[trigger] offered[i]).name),
    ) by {
        assert(!App::before(offered[j], offered[i]));
    }
    assert forall|i: int, j: int| 0 <= i < j < r.len() implies {
        let a = lowercase((#[trigger] r[i]).name);
        let b = lowercase((#[trigger] r[j]).name);
        ||| text_before(a, b)
        ||| a == b && exists|k: int, l: int|
            0 <= k < l < apps.len() && #[trigger] apps[k] == r[i] && #[trigger] apps[l] == r[j]
    } by {
        let a = lowercase(r[i].name);
        let b = lowercase(r[j].name);
        assert(!App::before(r[j], r[i]));
        texts_are_ordered(a, b);
        if !text_before(a, b) {
            equal_ranks_keep_their_order::<App>(apps, i, j);
        }
    }
}

} // verus!
