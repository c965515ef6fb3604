//! Fuzzy matching of names against a query.

use nucleo_matcher::pattern::{CaseMatching, Normalization, Pattern};
use nucleo_matcher::{Config, Matcher, Utf32Str};
use vstd::prelude::*;

verus! {

/// The matchers of `nucleo_matcher`.
#[verifier::external_type_specification]
#[verifier::external_body]
pub struct ExMatcher(nucleo_matcher::Matcher);

/// A matcher with the default settings.
pub struct FuzzyMatcher {
    inner: Matcher,
}

/// The score that `Pattern::score` gives a name for the pattern that `Pattern::parse` reads from a
/// query, with smart case and smart normalization and the default settings; `None` where the name
/// does not match.
pub uninterp spec fn pattern_score(query: Seq<char>, name: Seq<char>) -> Option<u32>;

/// Does the query break at this character? It does at a space, unless a backslash stands before it.
pub open spec fn breaks_at(query: Seq<char>, i: int) -> bool {
    query[i] == ' ' && !(i > 0 && query[i - 1] == '\\')
}

/// The number of backslashes in a piece of the query.
pub open spec fn backslashes(piece: Seq<char>) -> nat
    decreases piece.len(),
{
    if piece.len() == 0 {
        0
    } else {
        backslashes(piece.drop_last()) + (if piece.last() == '\\' {
            1nat
        } else {
            0
        })
    }
}

/// Is every character of the piece an ASCII character?
pub open spec fn all_ascii(piece: Seq<char>) -> bool {
    forall|i: int| 0 <= i < piece.len() ==> (#[trigger] piece[i]) as u32 <= 0x7f
}

/// The most characters that are looked for on account of a piece of the query. In one that is not
/// all ASCII a backslash counts twice.
pub open spec fn needle_room(piece: Seq<char>) -> nat {
    piece.len() + (if all_ascii(piece) {
        0
    } else {
        backslashes(piece)
    })
}

/// The longest needle whose score cannot be too large for 16 bits: its first character scores at
/// most 36 points, and every other one at most 26.
pub const MAX_NEEDLE: usize = 2520;

/// The longest query whose score cannot be too large for 32 bits: each of its characters stands for
/// at most two that are looked for, which score at most 36 points each.
pub const MAX_QUERY: usize = 0x380_0000;

/// The most characters that a name can have. None takes more than four bytes.
pub const MAX_NAME: usize = 0x3fff_ffff;

/// Is every part of the query that is looked for on its own short enough to be scored?
pub open spec fn parts_fit(query: Seq<char>) -> bool {
    forall|a: int, b: int|
        0 <= a <= b <= query.len() && (forall|i: int| a <= i < b ==> !breaks_at(query, i))
            ==> needle_room(#[trigger] query.subrange(a, b)) <= MAX_NEEDLE
}

/// What the lower case letters that fold to another letter fold to. The matcher finds them where
/// that letter is looked for, and then takes them for themselves.
pub open spec fn odd_fold(c: u32) -> Option<u32> {
    if c == 0xb5 {
        Some(0x3bc)
    } else if c == 0x17f {
        Some(0x73)
    } else if c == 0x345 {
        Some(0x3b9)
    } else if c == 0x3c2 {
        Some(0x3c3)
    } else if c == 0x3d0 {
        Some(0x3b2)
    } else if c == 0x3d1 {
        Some(0x3b8)
    } else if c == 0x3d5 {
        Some(0x3c6)
    } else if c == 0x3d6 {
        Some(0x3c0)
    } else if c == 0x3f0 {
        Some(0x3ba)
    } else if c == 0x3f1 {
        Some(0x3c1)
    } else if c == 0x3f5 {
        Some(0x3b5)
    } else if c == 0x1c80 {
        Some(0x432)
    } else if c == 0x1c81 {
        Some(0x434)
    } else if c == 0x1c82 {
        Some(0x43e)
    } else if c == 0x1c83 {
        Some(0x441)
    } else if c == 0x1c84 {
        Some(0x442)
    } else if c == 0x1c85 {
        Some(0x442)
    } else if c == 0x1c86 {
        Some(0x44a)
    } else if c == 0x1c87 {
        Some(0x463)
    } else if c == 0x1c88 {
        Some(0xa64b)
    } else if c == 0x1e9b {
        Some(0x1e61)
    } else if c == 0x1fbe {
        Some(0x3b9)
    } else if 0x13f8 <= c && c <= 0x13fd {
        Some((c - 8) as u32)
    } else if 0xab70 <= c && c <= 0xabbf {
        Some((c - 0x97d0) as u32)
    } else {
        None
    }
}

/// Is the character one that the matcher may take for a plain Latin letter?
pub open spec fn is_marked(c: u32) -> bool {
    0xc0 <= c <= 0x36f || 0x1d00 <= c <= 0x1ef1 || 0x2071 <= c <= 0x2184
}

/// Is no character of the query marked?
pub open spec fn is_plain(query: Seq<char>) -> bool {
    forall|i: int| 0 <= i < query.len() ==> !is_marked((#[trigger] query[i]) as u32)
}

/// Does a letter of the name fold to one of the query?
pub open spec fn folds_into(query: Seq<char>, name: Seq<char>) -> bool {
    exists|i: int, j: int|
        0 <= i < name.len() && 0 <= j < query.len() && odd_fold((#[trigger] name[i]) as u32) == Some(
            (#[trigger] query[j]) as u32,
        )
}

/// Can the name be scored for the query? The matcher counts the bytes of a name in 32 bits and
/// multiplies their number with the length of the needle. No part of the query is scored that has
/// more characters than the name. With a marked letter in the query, one of the name must not fold to
/// one of the query: the matcher would look for the first letter where it is not.
pub open spec fn scorable(query: Seq<char>, name: Seq<char>) -> bool {
    &&& name.len() <= MAX_NAME
    &&& name.len() <= usize::MAX as int / (4 * MAX_NEEDLE)
    &&& query.len() <= MAX_QUERY
    &&& name.len() <= MAX_NEEDLE || parts_fit(query)
    &&& is_plain(query) || !folds_into(query, name)
}

fn find_odd_fold(c: u32) -> (r: Option<u32>)
    ensures
        r == odd_fold(c),
{
    if c == 0xb5 {
        Some(0x3bc)
    } else if c == 0x17f {
        Some(0x73)
    } else if c == 0x345 {
        Some(0x3b9)
    } else if c == 0x3c2 {
        Some(0x3c3)
    } else if c == 0x3d0 {
        Some(0x3b2)
    } else if c == 0x3d1 {
        Some(0x3b8)
    } else if c == 0x3d5 {
        Some(0x3c6)
    } else if c == 0x3d6 {
        Some(0x3c0)
    } else if c == 0x3f0 {
        Some(0x3ba)
    } else if c == 0x3f1 {
        Some(0x3c1)
    } else if c == 0x3f5 {
        Some(0x3b5)
    } else if c == 0x1c80 {
        Some(0x432)
    } else if c == 0x1c81 {
        Some(0x434)
    } else if c == 0x1c82 {
        Some(0x43e)
    } else if c == 0x1c83 {
        Some(0x441)
    } else if c == 0x1c84 {
        Some(0x442)
    } else if c == 0x1c85 {
        Some(0x442)
    } else if c == 0x1c86 {
        Some(0x44a)
    } else if c == 0x1c87 {
        Some(0x463)
    } else if c == 0x1c88 {
        Some(0xa64b)
    } else if c == 0x1e9b {
        Some(0x1e61)
    } else if c == 0x1fbe {
        Some(0x3b9)
    } else if 0x13f8 <= c && c <= 0x13fd {
        Some(c - 8)
    } else if 0xab70 <= c && c <= 0xabbf {
        Some(c - 0x97d0)
    } else {
        None
    }
}

/// Is no character of the query marked?
pub(crate) fn has_no_marks(query: &Vec<char>) -> (r: bool)
    ensures
        r == is_plain(query@),
{
    let mut i: usize = 0;
    while i < query.len()
        invariant
            i <= query@.len(),
            forall|k: int| 0 <= k < i ==> !is_marked((#[trigger] query@[k]) as u32),
        decreases query@.len() - i,
    {
        let c: u32 = query[i] as u32;
        if (0xc0 <= c && c <= 0x36f) || (0x1d00 <= c && c <= 0x1ef1) || (0x2071 <= c && c
            <= 0x2184) {
            assert(is_marked(query@[i as int] as u32));
            return false;
        }
        i += 1;
    }
    true
}

/// Does a letter of the name fold to one of the query?
pub(crate) fn holds_fold(query: &Vec<char>, name: &Vec<char>) -> (r: bool)
    ensures
        r == folds_into(query@, name@),
{
    let mut i: usize = 0;
    while i < name.len()
        invariant
            i <= name@.len(),
            forall|k: int, j: int|
                0 <= k < i && 0 <= j < query@.len() ==> odd_fold((#[trigger] name@[k]) as u32)
                    != Some((#[trigger] query@[j]) as u32),
        decreases name@.len() - i,
    {
        if let Some(f) = find_odd_fold(name[i] as u32) {
            let mut j: usize = 0;
            while j < query.len()
                invariant
                    i < name@.len(),
                    j <= query@.len(),
                    odd_fold(name@[i as int] as u32) == Some(f),
                    forall|l: int| 0 <= l < j ==> (#[trigger] query@[l]) as u32 != f,
                decreases query@.len() - j,
            {
                if query[j] as u32 == f {
                    assert(odd_fold(name@[i as int] as u32) == Some(query@[j as int] as u32));
                    return true;
                }
                j += 1;
            }
        }
        i += 1;
    }
    false
}

/// Is every part of the query short enough to be scored?
pub(crate) fn parts_are_short(query: &Vec<char>) -> (r: bool)
    requires
        query@.len() <= MAX_QUERY,
    ensures
        r == parts_fit(query@),
{
    let mut start: usize = 0;
    let mut doubled: usize = 0;
    let mut ascii = true;
    let mut i: usize = 0;
    while i < query.len()
        invariant
            start <= i <= query@.len() <= MAX_QUERY,
            start == 0 || breaks_at(query@, start - 1),
            forall|k: int| start <= k < i ==> !breaks_at(query@, k),
            doubled == backslashes(query@.subrange(start as int, i as int)),
            doubled <= i - start,
            ascii == all_ascii(query@.subrange(start as int, i as int)),
            forall|a: int, b: int|
                0 <= a <= b <= i && (forall|k: int| a <= k < b ==> !breaks_at(query@, k))
                    ==> needle_room(#[trigger] query@.subrange(a, b)) <= MAX_NEEDLE,
        decreases query@.len() - i,
    {
        let c = query[i];
        let ghost was = query@.subrange(start as int, i as int);
        if c == ' ' && !(i > 0 && query[i - 1] == '\\') {
            start = i + 1;
            doubled = 0;
            ascii = true;
            i += 1;
            proof {
                assert(breaks_at(query@, i - 1));
                assert(query@.subrange(start as int, i as int) =~= Seq::<char>::empty());
                assert forall|a: int, b: int|
                    0 <= a <= b <= i && (forall|k: int| a <= k < b ==> !breaks_at(query@, k)) implies
                    needle_room(#[trigger] query@.subrange(a, b)) <= MAX_NEEDLE by {
                    if b == i && a < b {
                        assert(breaks_at(query@, b - 1));
                    } else if b == i {
                        assert(query@.subrange(a, b) =~= Seq::<char>::empty());
                    }
                }
            }
            continue ;
        }
        if c == '\\' {
            doubled += 1;
        }
        if c as u32 > 0x7f {
            ascii = false;
        }
        i += 1;
        let ghost now = query@.subrange(start as int, i as int);
        proof {
            assert(now.drop_last() =~= was);
            assert(now.last() == c);
            assert(ascii == all_ascii(now)) by {
                if all_ascii(was) && c as u32 <= 0x7f {
                    assert forall|k: int| 0 <= k < now.len() implies (#[trigger] now[k]) as u32
                        <= 0x7f by {
                        if k < was.len() {
                            assert(now[k] == was[k]);
                        }
                    }
                }
                if all_ascii(now) {
                    assert forall|k: int| 0 <= k < was.len() implies (#[trigger] was[k]) as u32
                        <= 0x7f by {
                        assert(was[k] == now[k]);
                    }
                    assert(now[now.len() - 1] == c);
                }
            }
        }
        let room: usize = if ascii {
            i - start
        } else {
            i - start + doubled
        };
        assert(room == needle_room(now));
        if room > MAX_NEEDLE {
            return false;
        }
        proof {
            assert forall|a: int, b: int|
                0 <= a <= b <= i && (forall|k: int| a <= k < b ==> !breaks_at(query@, k)) implies
                needle_room(#[trigger] query@.subrange(a, b)) <= MAX_NEEDLE by {
                if b == i {
                    if a < start {
                        assert(breaks_at(query@, start - 1));
                    }
                    assert(query@.subrange(a, b) =~= now.skip(a - start));
                    lemma_room_of_rest(now, a - start);
                }
            }
        }
    }
    true
}

/// The end of a piece has no more room than the piece.
proof fn lemma_room_of_rest(piece: Seq<char>, n: int)
    requires
        0 <= n <= piece.len(),
    ensures
        needle_room(piece.skip(n)) <= needle_room(piece),
{
    lemma_backslashes_of_rest(piece, n);
    if all_ascii(piece) {
        assert forall|i: int| 0 <= i < piece.skip(n).len() implies (#[trigger] piece.skip(
            n,
        )[i]) as u32 <= 0x7f by {
            assert(piece.skip(n)[i] == piece[i + n]);
        }
    }
}

proof fn lemma_backslashes_of_rest(piece: Seq<char>, n: int)
    requires
        0 <= n <= piece.len(),
    ensures
        backslashes(piece.skip(n)) <= backslashes(piece),
        backslashes(piece) <= piece.len(),
    decreases piece.len(),
{
    if n < piece.len() {
        assert(piece.skip(n).drop_last() =~= piece.drop_last().skip(n));
        lemma_backslashes_of_rest(piece.drop_last(), n);
    } else if piece.len() > 0 {
        assert(piece.skip(n) =~= Seq::<char>::empty());
        lemma_backslashes_of_rest(piece.drop_last(), piece.len() - 1);
    }
}

/// A name that can be scored for a query can be scored for the beginning of that query.
pub(crate) proof fn lemma_scorable_before(query: Seq<char>, n: int)
    requires
        0 <= n <= query.len(),
    ensures
        forall|name: Seq<char>| scorable(query, name) ==> #[trigger] scorable(query.take(n), name),
{
    let front = query.take(n);
    assert(is_plain(query) ==> is_plain(front)) by {
        if is_plain(query) {
            assert forall|k: int| 0 <= k < front.len() implies !is_marked(
                (#[trigger] front[k]) as u32,
            ) by {
                assert(front[k] == query[k]);
            }
        }
    }
    assert forall|name: Seq<char>| #[trigger] folds_into(front, name) implies folds_into(
        query,
        name,
    ) by {
        let (i, j) = choose|i: int, j: int|
            0 <= i < name.len() && 0 <= j < front.len() && odd_fold((#[trigger] name[i]) as u32)
                == Some((#[trigger] front[j]) as u32);
        assert(front[j] == query[j]);
    }
    if parts_fit(query) {
        assert forall|a: int, b: int|
            0 <= a <= b <= front.len() && (forall|i: int| a <= i < b ==> !breaks_at(
                front,
                i,
            )) implies needle_room(#[trigger] front.subrange(a, b)) <= MAX_NEEDLE by {
            assert(front.subrange(a, b) =~= query.subrange(a, b));
            assert forall|i: int| a <= i < b implies !breaks_at(query, i) by {
                assert(!breaks_at(front, i));
            }
        }
    }
}

/// Calls `Matcher::new` with `Config::DEFAULT`. Nothing is claimed of the matcher but that it is
/// one: it can only be used through `fuzzy_score`.
#[verifier::external_body]
pub(crate) fn new_matcher() -> FuzzyMatcher {
    FuzzyMatcher { inner: Matcher::new(Config::DEFAULT) }
}

/// Calls `Pattern::parse`, `Utf32Str::new` and `Pattern::score`. The claim: the score depends on the
/// query and the name alone. The matcher lends its settings, which are always the default ones, and
/// memory. Left out are names and queries whose scores could be too large to be counted, and those
/// on which an assertion of the matcher could fail.
#[verifier::external_body]
pub(crate) fn fuzzy_score(matcher: &mut FuzzyMatcher, query: &str, name: &str) -> (r: Option<u32>)
    requires
        scorable(query@, name@),
    ensures
        r == pattern_score(query@, name@),
{
    let pattern = Pattern::parse(query, CaseMatching::Smart, Normalization::Smart);
    let mut buf = Vec::new();
    pattern.score(Utf32Str::new(name, &mut buf), &mut matcher.inner)
}

/// Names that are written in ASCII can be scored for every query, and all names for queries in
/// ASCII, as long as they are no longer than any name that is shown.
pub proof fn plain_names_and_queries_are_scored(query: Seq<char>, name: Seq<char>)
    requires
        name.len() <= 2520,
        query.len() <= 2520,
        (forall|i: int| 0 <= i < name.len() ==> (#[trigger] name[i]) as u32 <= 0x7f) || (forall|i: int|
            0 <= i < query.len() ==> (#[trigger] query[i]) as u32 <= 0x7f),
    ensures
        scorable(query, name),
{
    assert(usize::MAX >= 0xffff_ffff);
    let most = usize::MAX as int;
    assert(most / 10080 >= 2520) by (nonlinear_arith)
        requires
            most >= 0xffff_ffff,
    ;
    assert(4 * MAX_NEEDLE == 10080);
    if folds_into(query, name) && !is_plain(query) {
        let (i, j) = choose|i: int, j: int|
            0 <= i < name.len() && 0 <= j < query.len() && odd_fold((#[trigger] name[i]) as u32)
                == Some((#[trigger] query[j]) as u32);
        assert(odd_fold(name[i] as u32) == Some(query[j] as u32));
        let k = choose|k: int| 0 <= k < query.len() && is_marked((#[trigger] query[k]) as u32);
        assert(is_marked(query[k] as u32));
    }
}

/// The query breaks at its spaces, except where a backslash stands before them.
pub proof fn queries_break_at_spaces(query: Seq<char>, i: int)
    requires
        0 <= i < query.len(),
    ensures
        query[i] != ' ' ==> !breaks_at(query, i),
        query[i] == ' ' && (i == 0 || query[i - 1] != '\\') ==> breaks_at(query, i),
        query[i] == ' ' && i > 0 && query[i - 1] == '\\' ==> !breaks_at(query, i),
{
}

} // verus!
