//! Characters, words and lines of text.

use vstd::prelude::*;

verus! {

/// `String::push` appends one character to the text and changes nothing else.
pub assume_specification[ String::push ](s: &mut String, c: char)
    ensures
        final(s)@ == old(s)@.push(c),
;

/// `String::pop` takes the last character off the text and returns it, or returns `None` and
/// leaves the text alone when it is empty.
pub assume_specification[ String::pop ](s: &mut String) -> (r: Option<char>)
    ensures
        old(s)@.len() == 0 ==> r is None && final(s)@ == old(s)@,
        old(s)@.len() > 0 ==> r == Some(old(s)@.last()) && final(s)@ == old(s)@.drop_last(),
;

/// The texts that a list of strings holds.
pub open spec fn texts(list: Seq<String>) -> Seq<Seq<char>> {
    list.map_values(|s: String| s@)
}

/// The characters of a text, one by one.
pub fn chars_of(s: &str) -> (r: Vec<char>)
    ensures
        r@ == s@,
{
    let mut out: Vec<char> = Vec::new();
    for c in it: s.chars()
        invariant
            out@ == s@.take(it.index() as int),
            it.seq() == s@,
    {
        out.push(c);
        assert(s@.take(it.index() as int + 1) =~= s@.take(it.index() as int).push(c));
    }
    assert(s@.take(s@.len() as int) =~= s@);
    out
}

/// The text made of the characters from `from` up to `to`.
pub fn text_between(chars: &Vec<char>, from: usize, to: usize) -> (r: String)
    requires
        from <= to <= chars@.len(),
    ensures
        r@ == chars@.subrange(from as int, to as int),
{
    let mut out = String::new();
    let mut i: usize = from;
    assert(chars@.subrange(from as int, from as int) =~= Seq::<char>::empty());
    while i < to
        invariant
            from <= i <= to <= chars@.len(),
            out@ == chars@.subrange(from as int, i as int),
        decreases to - i,
    {
        out.push(chars[i]);
        assert(chars@.subrange(from as int, i + 1) =~= chars@.subrange(
            from as int,
            i as int,
        ).push(chars@[i as int]));
        i += 1;
    }
    out
}

/// Do the two texts hold the same characters?
pub fn same_text(a: &str, b: &str) -> (r: bool)
    ensures
        r == (a@ == b@),
{
    let x = chars_of(a);
    let y = chars_of(b);
    if x.len() != y.len() {
        return false;
    }
    let mut i: usize = 0;
    while i < x.len()
        invariant
            i <= x@.len(),
            x@.len() == y@.len(),
            x@ == a@,
            y@ == b@,
            forall|j: int| 0 <= j < i ==> x@[j] == y@[j],
        decreases x@.len() - i,
    {
        if x[i] != y[i] {
            return false;
        }
        i += 1;
    }
    assert(a@ =~= b@);
    true
}

/// The characters with the Unicode property White_Space.
pub open spec fn is_white(c: char) -> bool {
    ||| '\u{9}' <= c <= '\u{d}'
    ||| c == ' '
    ||| c == '\u{85}'
    ||| c == '\u{a0}'
    ||| c == '\u{1680}'
    ||| '\u{2000}' <= c <= '\u{200a}'
    ||| c == '\u{2028}'
    ||| c == '\u{2029}'
    ||| c == '\u{202f}'
    ||| c == '\u{205f}'
    ||| c == '\u{3000}'
}

/// Does `c` have the Unicode property White_Space?
pub fn is_whitespace(c: char) -> (r: bool)
    ensures
        r == is_white(c),
{
    ('\u{9}' <= c && c <= '\u{d}') || c == ' ' || c == '\u{85}' || c == '\u{a0}' || c == '\u{1680}'
        || ('\u{2000}' <= c && c <= '\u{200a}') || c == '\u{2028}' || c == '\u{2029}' || c
        == '\u{202f}' || c == '\u{205f}' || c == '\u{3000}'
}

/// The control characters: Unicode's general category Cc.
pub open spec fn is_ctl(c: char) -> bool {
    c <= '\u{1f}' || '\u{7f}' <= c <= '\u{9f}'
}

/// Is `c` a control character?
pub fn is_control(c: char) -> (r: bool)
    ensures
        r == is_ctl(c),
{
    c <= '\u{1f}' || ('\u{7f}' <= c && c <= '\u{9f}')
}

/// The text without the white space that it starts with.
pub open spec fn trim_front(s: Seq<char>) -> Seq<char>
    decreases s.len(),
{
    if s.len() > 0 && is_white(s[0]) {
        trim_front(s.drop_first())
    } else {
        s
    }
}

/// The text without the white space that it ends with.
pub open spec fn trim_back(s: Seq<char>) -> Seq<char>
    decreases s.len(),
{
    if s.len() > 0 && is_white(s.last()) {
        trim_back(s.drop_last())
    } else {
        s
    }
}

/// The text without the white space around it.
pub open spec fn trimmed(s: Seq<char>) -> Seq<char> {
    trim_back(trim_front(s))
}

/// The text without the white space around it.
pub fn trim(s: &str) -> (r: String)
    ensures
        r@ == trimmed(s@),
{
    let chars = chars_of(s);
    let mut from: usize = 0;
    let mut to: usize = chars.len();
    assert(chars@.skip(0) =~= chars@);
    while from < chars.len() && is_whitespace(chars[from])
        invariant
            from <= chars@.len(),
            trim_front(chars@) == trim_front(chars@.skip(from as int)),
        decreases chars@.len() - from,
    {
        assert(chars@.skip(from as int).drop_first() =~= chars@.skip(from + 1));
        from += 1;
    }
    assert(trim_front(chars@) == chars@.skip(from as int));
    assert(chars@.skip(from as int) =~= chars@.subrange(from as int, to as int));
    while from < to && is_whitespace(chars[to - 1])
        invariant
            from <= to <= chars@.len(),
            trim_back(trim_front(chars@)) == trim_back(chars@.subrange(from as int, to as int)),
        decreases to - from,
    {
        assert(chars@.subrange(from as int, to as int).drop_last() =~= chars@.subrange(
            from as int,
            to - 1,
        ));
        to -= 1;
    }
    text_between(&chars, from, to)
}

/// The number of characters before the first line feed, or all of them.
pub open spec fn line_len(s: Seq<char>) -> nat
    decreases s.len(),
{
    if s.len() == 0 || s[0] == '\n' {
        0
    } else {
        1 + line_len(s.drop_first())
    }
}

/// The line without the carriage return that came before its line feed.
pub open spec fn without_return(s: Seq<char>) -> Seq<char> {
    if s.len() > 0 && s.last() == '\r' {
        s.drop_last()
    } else {
        s
    }
}

/// The lines of a text, without their line endings.
pub open spec fn lines(s: Seq<char>) -> Seq<Seq<char>>
    decreases s.len(),
{
    if s.len() == 0 {
        Seq::empty()
    } else {
        let n = line_len(s);
        if n >= s.len() {
            seq![s]
        } else {
            seq![without_return(s.take(n as int))] + lines(s.skip(n as int + 1))
        }
    }
}

/// The line that `s` starts with ends at the first line feed.
pub proof fn lemma_line_len(s: Seq<char>, n: int)
    requires
        0 <= n <= s.len(),
        forall|i: int| 0 <= i < n ==> s[i] != '\n',
        n < s.len() ==> s[n] == '\n',
    ensures
        line_len(s) == n,
    decreases s.len(),
{
    if n > 0 {
        assert(s.drop_first().len() == s.len() - 1);
        assert forall|i: int| 0 <= i < n - 1 implies s.drop_first()[i] != '\n' by {
            assert(s.drop_first()[i] == s[i + 1]);
        }
        lemma_line_len(s.drop_first(), n - 1);
    }
}

/// No line feed stands in the text.
pub open spec fn on_one_line(s: Seq<char>) -> bool {
    forall|i: int| 0 <= i < s.len() ==> s[i] != '\n'
}

/// The text is empty or ends with a line feed.
pub open spec fn lines_complete(s: Seq<char>) -> bool {
    s.len() > 0 ==> s.last() == '\n'
}

/// What `line_len` counts: no line feed comes before that place, and one stands there unless
/// the text ends.
pub proof fn lemma_line_len_is_first(s: Seq<char>)
    ensures
        line_len(s) <= s.len(),
        forall|i: int| 0 <= i < line_len(s) ==> s[i] != '\n',
        line_len(s) < s.len() ==> s[line_len(s) as int] == '\n',
    decreases s.len(),
{
    if s.len() > 0 && s[0] != '\n' {
        let t = s.drop_first();
        lemma_line_len_is_first(t);
        assert forall|i: int| 0 <= i < line_len(s) implies s[i] != '\n' by {
            if i > 0 {
                assert(t[i - 1] == s[i]);
            }
        }
        if line_len(s) < s.len() {
            assert(t[line_len(t) as int] == s[line_len(s) as int]);
        }
    }
}

/// Text that starts on a new line adds its own lines to those before it.
pub proof fn lemma_lines_append(s: Seq<char>, more: Seq<char>)
    requires
        lines_complete(s),
    ensures
        lines(s + more) == lines(s) + lines(more),
    decreases s.len(),
{
    if s.len() == 0 {
        assert(s + more =~= more);
        assert(lines(s) + lines(more) =~= lines(more));
    } else {
        let n = line_len(s) as int;
        lemma_line_len_is_first(s);
        if n == s.len() {
            assert(s[s.len() - 1] != '\n');
        }
        let all = s + more;
        assert forall|i: int| 0 <= i < n implies all[i] != '\n' by {
            assert(all[i] == s[i]);
        }
        assert(all[n] == s[n]);
        lemma_line_len(all, n);
        assert(all.take(n) =~= s.take(n));
        assert(all.skip(n + 1) =~= s.skip(n + 1) + more);
        if s.skip(n + 1).len() > 0 {
            assert(s.skip(n + 1).last() == s.last());
        }
        lemma_lines_append(s.skip(n + 1), more);
        assert(lines(all) =~= lines(s) + lines(more));
    }
}

/// One line and its line feed read back as that line.
pub proof fn lemma_one_line(s: Seq<char>)
    requires
        on_one_line(s),
    ensures
        lines(s.push('\n')) == seq![without_return(s)],
{
    let all = s.push('\n');
    lemma_line_len(all, s.len() as int);
    assert(all.take(s.len() as int) =~= s);
    assert(all.skip(s.len() as int + 1) =~= Seq::<char>::empty());
    assert(lines(all.skip(s.len() as int + 1)) =~= Seq::<Seq<char>>::empty());
    assert(lines(all) =~= seq![without_return(s)]);
}

/// No line of a text holds a line feed.
pub proof fn lemma_lines_on_one_line(s: Seq<char>)
    ensures
        forall|i: int| 0 <= i < lines(s).len() ==> on_one_line(#[trigger] lines(s)[i]),
    decreases s.len(),
{
    if s.len() > 0 {
        let n = line_len(s) as int;
        lemma_line_len_is_first(s);
        if n < s.len() {
            lemma_lines_on_one_line(s.skip(n + 1));
            let rest = lines(s.skip(n + 1));
            assert forall|i: int| 0 <= i < lines(s).len() implies on_one_line(
                #[trigger] lines(s)[i],
            ) by {
                if i > 0 {
                    assert(lines(s)[i] == rest[i - 1]);
                } else {
                    assert(lines(s)[0] == without_return(s.take(n)));
                }
            }
        } else {
            assert(lines(s) =~= seq![s]);
        }
    }
}

/// White space at the end of a text does not change what is left of it without the white space
/// around it.
pub proof fn lemma_trimmed_push_white(s: Seq<char>, c: char)
    requires
        is_white(c),
    ensures
        trimmed(s.push(c)) == trimmed(s),
    decreases s.len(),
{
    let t = s.push(c);
    if s.len() == 0 {
        reveal_with_fuel(trim_front, 2);
        assert(t.drop_first() =~= Seq::<char>::empty());
        assert(trim_front(t) =~= Seq::<char>::empty());
        assert(trim_front(s) =~= Seq::<char>::empty());
    } else if is_white(s[0]) {
        assert(t[0] == s[0]);
        assert(t.drop_first() =~= s.drop_first().push(c));
        lemma_trimmed_push_white(s.drop_first(), c);
    } else {
        assert(t[0] == s[0]);
        assert(t.drop_last() =~= s);
    }
}

/// A carriage return before the line feed does not change what a line holds without the white
/// space around it.
pub proof fn lemma_trimmed_without_return(s: Seq<char>)
    ensures
        trimmed(without_return(s)) == trimmed(s),
{
    if s.len() > 0 && s.last() == '\r' {
        lemma_trimmed_push_white(s.drop_last(), '\r');
        assert(s.drop_last().push('\r') =~= s);
    }
}

/// The lines of a text, without their line endings.
pub fn split_lines(s: &str) -> (r: Vec<String>)
    ensures
        texts(r@) == lines(s@),
{
    let chars = chars_of(s);
    let mut out: Vec<String> = Vec::new();
    let mut i: usize = 0;
    assert(chars@.skip(0) =~= chars@);
    assert(texts(out@) + lines(chars@) =~= lines(chars@));
    while i < chars.len()
        invariant
            i <= chars@.len(),
            chars@ == s@,
            texts(out@) + lines(chars@.skip(i as int)) == lines(s@),
        decreases chars@.len() - i,
    {
        let mut j: usize = i;
        while j < chars.len() && chars[j] != '\n'
            invariant
                i <= j <= chars@.len(),
                forall|k: int| i <= k < j ==> chars@[k] != '\n',
            decreases chars@.len() - j,
        {
            j += 1;
        }
        let ghost rest = chars@.skip(i as int);
        let ghost before = out@;
        proof {
            assert forall|k: int| 0 <= k < j - i implies rest[k] != '\n' by {
                assert(rest[k] == chars@[i + k]);
            }
            lemma_line_len(rest, j - i);
            assert(rest.take(j - i) =~= chars@.subrange(i as int, j as int));
        }
        let mut end: usize = j;
        if j < chars.len() && j > i && chars[j - 1] == '\r' {
            end = j - 1;
            assert(rest.take(j - i).drop_last() =~= chars@.subrange(i as int, end as int));
        }
        let line = text_between(&chars, i, end);
        out.push(line);
        proof {
            assert(texts(out@) =~= texts(before).push(line@));
            if j < chars@.len() {
                assert(rest.skip(j - i + 1) =~= chars@.skip(j + 1));
                assert(texts(before) + (seq![line@] + lines(chars@.skip(j + 1))) =~= texts(
                    out@,
                ) + lines(chars@.skip(j + 1)));
            } else {
                assert(rest =~= chars@.subrange(i as int, j as int));
                assert(chars@.skip(chars@.len() as int) =~= Seq::<char>::empty());
                assert(texts(before) + seq![line@] =~= texts(out@) + lines(
                    chars@.skip(chars@.len() as int),
                ));
            }
        }
        if j < chars.len() {
            i = j + 1;
        } else {
            i = j;
        }
    }
    assert(chars@.skip(i as int) =~= Seq::<char>::empty());
    assert(texts(out@) + Seq::<Seq<char>>::empty() =~= texts(out@));
    out
}

/// The number of characters before the first white space, or all of them.
pub open spec fn word_len(s: Seq<char>) -> nat
    decreases s.len(),
{
    if s.len() == 0 || is_white(s[0]) {
        0
    } else {
        1 + word_len(s.drop_first())
    }
}

/// The words of a text: its longest runs of characters that are not white space.
pub open spec fn words(s: Seq<char>) -> Seq<Seq<char>>
    decreases s.len(),
{
    if s.len() == 0 {
        Seq::empty()
    } else if is_white(s[0]) {
        words(s.drop_first())
    } else {
        let n = word_len(s);
        if 0 < n <= s.len() {
            seq![s.take(n as int)] + words(s.skip(n as int))
        } else {
            Seq::empty()
        }
    }
}

/// The word that `s` starts with ends at the first white space.
pub proof fn lemma_word_len(s: Seq<char>, n: int)
    requires
        0 <= n <= s.len(),
        forall|i: int| 0 <= i < n ==> !is_white(#[trigger] s[i]),
        n < s.len() ==> is_white(s[n]),
    ensures
        word_len(s) == n,
    decreases s.len(),
{
    if n > 0 {
        assert forall|i: int| 0 <= i < n - 1 implies !is_white(#[trigger] s.drop_first()[i]) by {
            assert(s.drop_first()[i] == s[i + 1]);
        }
        lemma_word_len(s.drop_first(), n - 1);
    }
}

/// The words of a text.
pub fn split_words(s: &str) -> (r: Vec<String>)
    ensures
        texts(r@) == words(s@),
{
    let chars = chars_of(s);
    let mut out: Vec<String> = Vec::new();
    let mut i: usize = 0;
    assert(chars@.skip(0) =~= chars@);
    assert(texts(out@) + words(chars@) =~= words(chars@));
    while i < chars.len()
        invariant
            i <= chars@.len(),
            chars@ == s@,
            texts(out@) + words(chars@.skip(i as int)) == words(s@),
        decreases chars@.len() - i,
    {
        let ghost rest = chars@.skip(i as int);
        if is_whitespace(chars[i]) {
            assert(rest.drop_first() =~= chars@.skip(i + 1));
            i += 1;
        } else {
            let mut j: usize = i;
            while j < chars.len() && !is_whitespace(chars[j])
                invariant
                    i <= j <= chars@.len(),
                    forall|k: int| i <= k < j ==> !is_white(#[trigger] chars@[k]),
                decreases chars@.len() - j,
            {
                j += 1;
            }
            let ghost before = out@;
            proof {
                assert forall|k: int| 0 <= k < j - i implies !is_white(#[trigger] rest[k]) by {
                    assert(rest[k] == chars@[i + k]);
                }
                lemma_word_len(rest, j - i);
                assert(rest.take(j - i) =~= chars@.subrange(i as int, j as int));
            }
            let word = text_between(&chars, i, j);
            out.push(word);
            proof {
                assert(texts(out@) =~= texts(before).push(word@));
                assert(rest.skip(j - i) =~= chars@.skip(j as int));
                assert(texts(before) + (seq![word@] + words(chars@.skip(j as int))) =~= texts(out@)
                    + words(chars@.skip(j as int)));
            }
            i = j;
        }
    }
    assert(chars@.skip(i as int) =~= Seq::<char>::empty());
    assert(texts(out@) + Seq::<Seq<char>>::empty() =~= texts(out@));
    out
}

/// The texts one after the other, with `sep` between each two of them.
pub open spec fn joined(list: Seq<Seq<char>>, sep: Seq<char>) -> Seq<char>
    decreases list.len(),
{
    if list.len() == 0 {
        Seq::empty()
    } else if list.len() == 1 {
        list[0]
    } else {
        joined(list.drop_last(), sep) + sep + list.last()
    }
}

/// Appends `more` to `out`.
pub fn push_text(out: &mut String, more: &str)
    ensures
        final(out)@ == old(out)@ + more@,
{
    let chars = chars_of(more);
    let mut i: usize = 0;
    assert(out@ + chars@.take(0) =~= out@);
    while i < chars.len()
        invariant
            i <= chars@.len(),
            chars@ == more@,
            out@ == old(out)@ + chars@.take(i as int),
        decreases chars@.len() - i,
    {
        out.push(chars[i]);
        assert(old(out)@ + chars@.take(i + 1) =~= (old(out)@ + chars@.take(i as int)).push(
            chars@[i as int],
        ));
        i += 1;
    }
    assert(chars@.take(i as int) =~= more@);
}

/// The texts one after the other, with `sep` between each two of them.
pub fn join(list: &Vec<String>, sep: &str) -> (r: String)
    ensures
        r@ == joined(texts(list@), sep@),
{
    let mut out = String::new();
    let mut i: usize = 0;
    assert(texts(list@).take(0) =~= Seq::<Seq<char>>::empty());
    while i < list.len()
        invariant
            i <= list@.len(),
            out@ == joined(texts(list@).take(i as int), sep@),
        decreases list@.len() - i,
    {
        let ghost part = texts(list@).take(i + 1);
        assert(part.drop_last() =~= texts(list@).take(i as int));
        assert(part.last() == list@[i as int]@);
        if i > 0 {
            push_text(&mut out, sep);
            push_text(&mut out, list[i].as_str());
        } else {
            push_text(&mut out, list[i].as_str());
            assert(out@ =~= list@[0]@);
        }
        i += 1;
    }
    assert(texts(list@).take(i as int) =~= texts(list@));
    out
}

/// The digit `d` as a character.
pub open spec fn digit(d: int) -> char {
    (48 + d) as char
}

/// The decimal digits of a number, without leading zeros.
pub open spec fn decimal(n: nat) -> Seq<char>
    decreases n,
{
    if n < 10 {
        seq![digit(n as int)]
    } else {
        decimal(n / 10).push(digit(n as int % 10))
    }
}

/// Appends the decimal digits of `n` to `out`.
pub fn push_decimal(out: &mut String, n: u32)
    ensures
        final(out)@ == old(out)@ + decimal(n as nat),
    decreases n,
{
    if n >= 10 {
        push_decimal(out, n / 10);
    }
    let d: u8 = (n % 10) as u8;
    out.push((48 + d) as char);
    proof {
        if n >= 10 {
            assert(old(out)@ + decimal(n as nat) =~= (old(out)@ + decimal(n as nat / 10)).push(
                digit(n as int % 10),
            ));
        } else {
            assert(old(out)@ + decimal(n as nat) =~= old(out)@.push(digit(n as int % 10)));
        }
    }
}

/// Does the text `a` come before the text `b` when both are ordered by their characters' code
/// points, as in a dictionary?
pub open spec fn text_before(a: Seq<char>, b: Seq<char>) -> bool
    decreases a.len(),
{
    if b.len() == 0 {
        false
    } else if a.len() == 0 {
        true
    } else if a[0] == b[0] {
        text_before(a.drop_first(), b.drop_first())
    } else {
        a[0] < b[0]
    }
}

/// Does the text `a` come before the text `b` in the order of code points?
pub fn comes_before(a: &str, b: &str) -> (r: bool)
    ensures
        r == text_before(a@, b@),
{
    let x = chars_of(a);
    let y = chars_of(b);
    let mut i: usize = 0;
    assert(x@.skip(0) =~= x@);
    assert(y@.skip(0) =~= y@);
    while i < x.len() && i < y.len() && x[i] == y[i]
        invariant
            i <= x@.len(),
            i <= y@.len(),
            x@ == a@,
            y@ == b@,
            text_before(a@, b@) == text_before(x@.skip(i as int), y@.skip(i as int)),
        decreases x@.len() - i,
    {
        assert(x@.skip(i as int).drop_first() =~= x@.skip(i + 1));
        assert(y@.skip(i as int).drop_first() =~= y@.skip(i + 1));
        i += 1;
    }
    if i >= y.len() {
        false
    } else if i >= x.len() {
        true
    } else {
        x[i] < y[i]
    }
}

/// Of two different texts exactly one comes before the other.
pub proof fn texts_are_ordered(a: Seq<char>, b: Seq<char>)
    ensures
        text_before(a, b) ==> !text_before(b, a),
        a != b ==> text_before(a, b) || text_before(b, a),
        !text_before(a, a),
    decreases a.len(),
{
    if a.len() > 0 {
        if b.len() > 0 {
            texts_are_ordered(a.drop_first(), b.drop_first());
            if a[0] == b[0] && a.drop_first() == b.drop_first() {
                assert(a =~= seq![a[0]] + a.drop_first());
                assert(b =~= seq![b[0]] + b.drop_first());
            }
        } else {
            texts_are_ordered(a.drop_first(), a.drop_first());
        }
    } else if b.len() == 0 {
        assert(a =~= b);
    }
}

/// A text that comes before another comes before everything behind that other.
pub proof fn text_order_is_transitive(a: Seq<char>, b: Seq<char>, c: Seq<char>)
    requires
        text_before(a, b),
        text_before(b, c),
    ensures
        text_before(a, c),
    decreases a.len(),
{
    if a.len() > 0 && a[0] == b[0] && b[0] == c[0] {
        text_order_is_transitive(a.drop_first(), b.drop_first(), c.drop_first());
    }
}

/// A text that comes before another comes before every text that does not.
pub proof fn lemma_text_order_splits(a: Seq<char>, b: Seq<char>, c: Seq<char>)
    requires
        text_before(a, b),
        !text_before(c, b),
    ensures
        text_before(a, c),
{
    texts_are_ordered(b, c);
    if b != c {
        text_order_is_transitive(a, b, c);
    }
}

/// No word is empty or holds white space.
pub proof fn lemma_words_hold_no_white(s: Seq<char>)
    ensures
        forall|i: int| 0 <= i < words(s).len() ==> is_word(#[trigger] words(s)[i]),
    decreases s.len(),
{
    if s.len() > 0 {
        if is_white(s[0]) {
            lemma_words_hold_no_white(s.drop_first());
            assert(words(s) == words(s.drop_first()));
        } else {
            lemma_word_len_is_first(s);
            let n = word_len(s) as int;
            lemma_words_hold_no_white(s.skip(n));
            let rest = words(s.skip(n));
            assert(words(s) == seq![s.take(n)] + rest);
            assert forall|i: int| 0 <= i < words(s).len() implies is_word(#[trigger] words(s)[i]) by {
                if i == 0 {
                    assert(words(s)[0] == s.take(n));
                    assert forall|k: int| 0 <= k < n implies !is_white(#[trigger] s.take(n)[k]) by {
                        assert(s.take(n)[k] == s[k]);
                    }
                } else {
                    assert(words(s)[i] == rest[i - 1]);
                }
            }
        }
    }
}

/// A text that is not empty and holds no white space.
pub open spec fn is_word(s: Seq<char>) -> bool {
    s.len() > 0 && forall|i: int| 0 <= i < s.len() ==> !is_white(#[trigger] s[i])
}

proof fn lemma_word_len_is_first(s: Seq<char>)
    ensures
        word_len(s) <= s.len(),
        forall|i: int| 0 <= i < word_len(s) ==> !is_white(#[trigger] s[i]),
        s.len() > 0 && !is_white(s[0]) ==> word_len(s) > 0,
        word_len(s) < s.len() ==> is_white(s[word_len(s) as int]),
    decreases s.len(),
{
    if s.len() > 0 && !is_white(s[0]) {
        let t = s.drop_first();
        lemma_word_len_is_first(t);
        assert forall|i: int| 0 <= i < word_len(s) implies !is_white(#[trigger] s[i]) by {
            if i > 0 {
                assert(t[i - 1] == s[i]);
            }
        }
    }
}

/// A text that neither starts nor ends with white space.
pub open spec fn is_bare(s: Seq<char>) -> bool {
    s.len() > 0 ==> !is_white(s[0]) && !is_white(s.last())
}

/// A text without white space around it is left as it is by removing it.
pub proof fn lemma_bare_is_trimmed(s: Seq<char>)
    requires
        is_bare(s),
    ensures
        trimmed(s) == s,
{
}

/// Words with single spaces between them start and end without white space, and are empty only
/// where there are none.
pub proof fn lemma_joined_words_are_bare(list: Seq<Seq<char>>)
    requires
        forall|i: int| 0 <= i < list.len() ==> is_word(#[trigger] list[i]),
    ensures
        is_bare(joined(list, seq![' '])),
        on_one_line(joined(list, seq![' '])),
        list.len() > 0 <==> joined(list, seq![' ']).len() > 0,
    decreases list.len(),
{
    let sep = seq![' '];
    if list.len() == 1 {
        assert(is_word(list[0]));
        assert(!is_white(list[0][0]));
        assert(!is_white(list[0][list[0].len() - 1]));
        assert forall|i: int| 0 <= i < list[0].len() implies list[0][i] != '\n' by {
            assert(!is_white(list[0][i]));
        }
    } else if list.len() > 1 {
        let front = list.drop_last();
        assert forall|i: int| 0 <= i < front.len() implies is_word(#[trigger] front[i]) by {
            assert(front[i] == list[i]);
        }
        lemma_joined_words_are_bare(front);
        let last = list[list.len() - 1];
        assert(is_word(last));
        let f = joined(front, sep);
        let all = f + sep + last;
        assert(joined(list, sep) == all);
        assert(all[0] == f[0]);
        assert(!is_white(last[last.len() - 1]));
        assert(all.last() == last[last.len() - 1]);
        assert forall|i: int| 0 <= i < all.len() implies all[i] != '\n' by {
            if i < f.len() {
                assert(all[i] == f[i]);
            } else if i == f.len() {
                assert(all[i] == ' ');
            } else {
                assert(all[i] == last[i - f.len() - 1]);
                assert(!is_white(last[i - f.len() - 1]));
            }
        }
    }
}

/// White space are the characters that Unicode counts as such.
pub proof fn white_space_is_that_of_unicode(c: char)
    ensures
        ({
            let n = c as u32;
            is_white(c) <==> {
                ||| 9 <= n <= 13
                ||| n == 32
                ||| n == 0x85
                ||| n == 0xa0
                ||| n == 0x1680
                ||| 0x2000 <= n <= 0x200a
                ||| n == 0x2028
                ||| n == 0x2029
                ||| n == 0x202f
                ||| n == 0x205f
                ||| n == 0x3000
            }
        }),
{
}

/// Control characters are those below the space, and those from delete on up to before the no-break
/// space.
pub proof fn controls_have_no_glyph(c: char)
    ensures
        is_ctl(c) <==> (c as u32) < 32 || 127 <= (c as u32) < 160,
{
}

/// White space around a text is taken off, all of it, and nothing else is: what begins and ends with
/// other characters comes back whole.
pub proof fn trimming_takes_off_what_surrounds(a: Seq<char>, s: Seq<char>, b: Seq<char>)
    requires
        forall|i: int| 0 <= i < a.len() ==> is_white(#[trigger] a[i]),
        forall|i: int| 0 <= i < b.len() ==> is_white(#[trigger] b[i]),
        s.len() > 0 ==> !is_white(s[0]) && !is_white(s[s.len() - 1]),
    ensures
        trimmed(a + s + b) == s,
    decreases a.len() + b.len(),
{
    let t = a + s + b;
    if b.len() > 0 {
        let front = b.drop_last();
        assert forall|i: int| 0 <= i < front.len() implies is_white(#[trigger] front[i]) by {
            assert(front[i] == b[i]);
        }
        trimming_takes_off_what_surrounds(a, s, front);
        lemma_trimmed_push_white(a + s + front, b.last());
        assert((a + s + front).push(b.last()) =~= t);
    } else if a.len() > 0 {
        let rest = a.drop_first();
        assert forall|i: int| 0 <= i < rest.len() implies is_white(#[trigger] rest[i]) by {
            assert(rest[i] == a[i + 1]);
        }
        trimming_takes_off_what_surrounds(rest, s, b);
        assert(t[0] == a[0]);
        assert(t.drop_first() =~= rest + s + b);
    } else {
        assert(t =~= s);
        lemma_bare_is_trimmed(s);
    }
}

/// A line ends at a line feed, and a carriage return before it belongs to the end. What follows are
/// the lines of the rest; a last line without its end is a line too.
pub proof fn lines_end_at_line_feeds(s: Seq<char>, rest: Seq<char>)
    requires
        forall|i: int| 0 <= i < s.len() ==> s[i] != '\n',
    ensures
        lines(s + seq!['\r', '\n'] + rest) == seq![s] + lines(rest),
        s.len() == 0 || s.last() != '\r' ==> lines(s + seq!['\n'] + rest) == seq![s] + lines(rest),
        s.len() > 0 ==> lines(s) == seq![s],
        lines(Seq::empty()).len() == 0,
{
    let n = s.len() as int;
    let t = s + seq!['\n'] + rest;
    assert forall|i: int| 0 <= i < n implies t[i] != '\n' by {
        assert(t[i] == s[i]);
    }
    lemma_line_len(t, n);
    assert(t.take(n) =~= s);
    assert(t.skip(n + 1) =~= rest);
    let r = s + seq!['\r', '\n'] + rest;
    assert forall|i: int| 0 <= i < n + 1 implies r[i] != '\n' by {
        if i < n {
            assert(r[i] == s[i]);
        }
    }
    assert(r[n + 1] == '\n');
    lemma_line_len(r, n + 1);
    assert(r.take(n + 1) =~= s.push('\r'));
    assert(s.push('\r').drop_last() =~= s);
    assert(r.skip(n + 2) =~= rest);
    lemma_line_len(s, n);
}

/// A text without white space is one word.
pub proof fn word_is_one_word(s: Seq<char>)
    requires
        s.len() > 0,
        forall|i: int| 0 <= i < s.len() ==> !is_white(#[trigger] s[i]),
    ensures
        words(s) == seq![s],
        words(Seq::empty()).len() == 0,
{
    lemma_word_len(s, s.len() as int);
    assert(s.take(s.len() as int) =~= s);
    assert(s.skip(s.len() as int) =~= Seq::<char>::empty());
    assert(words(s.skip(s.len() as int)) =~= Seq::<Seq<char>>::empty());
    assert(seq![s] + Seq::<Seq<char>>::empty() =~= seq![s]);
}

/// White space parts the words: those of a text with some in it are those before it and those
/// behind it.
pub proof fn words_part_at_white_space(a: Seq<char>, c: char, b: Seq<char>)
    requires
        is_white(c),
    ensures
        words(a + seq![c] + b) == words(a) + words(b),
    decreases a.len(),
{
    let t = a + seq![c] + b;
    if a.len() == 0 {
        assert(t[0] == c);
        assert(t.drop_first() =~= b);
        assert(words(a) + words(b) =~= words(b));
    } else if is_white(a[0]) {
        assert(t[0] == a[0]);
        words_part_at_white_space(a.drop_first(), c, b);
        assert(t.drop_first() =~= a.drop_first() + seq![c] + b);
    } else {
        lemma_word_len_is_first(a);
        let n = word_len(a) as int;
        assert forall|i: int| 0 <= i < n implies !is_white(#[trigger] t[i]) by {
            assert(t[i] == a[i]);
        }
        assert(t[n] == if n < a.len() {
            a[n]
        } else {
            c
        });
        lemma_word_len(t, n);
        assert(t.take(n) =~= a.take(n));
        assert(word_len(a) > 0);
        words_part_at_white_space(a.skip(n), c, b);
        assert(t.skip(n) =~= a.skip(n) + seq![c] + b);
        assert(seq![a.take(n)] + (words(a.skip(n)) + words(b)) =~= (seq![a.take(n)] + words(
            a.skip(n),
        )) + words(b));
    }
}

/// Joining puts the separator between two neighbours and nowhere else.
pub proof fn joining_separates_neighbours(list: Seq<Seq<char>>, s: Seq<char>, sep: Seq<char>)
    ensures
        joined(Seq::empty(), sep).len() == 0,
        joined(seq![s], sep) == s,
        list.len() > 0 ==> joined(list.push(s), sep) == joined(list, sep) + sep + s,
{
    assert(list.push(s).drop_last() =~= list);
}

/// Words that are joined by spaces are the words of the joined text.
pub proof fn joined_words_part_again(list: Seq<Seq<char>>)
    requires
        forall|i: int| 0 <= i < list.len() ==> is_word(#[trigger] list[i]),
    ensures
        words(joined(list, seq![' '])) == list,
    decreases list.len(),
{
    if list.len() == 0 {
        assert(words(Seq::<char>::empty()) =~= list);
    } else {
        let front = list.drop_last();
        let last = list.last();
        assert(is_word(list[list.len() - 1]));
        word_is_one_word(last);
        if front.len() == 0 {
            assert(list =~= seq![last]);
        } else {
            assert forall|i: int| 0 <= i < front.len() implies is_word(#[trigger] front[i]) by {
                assert(front[i] == list[i]);
            }
            joined_words_part_again(front);
            words_part_at_white_space(joined(front, seq![' ']), ' ', last);
            assert(front + seq![last] =~= list);
        }
    }
}

/// The number that some digits stand for.
pub open spec fn number(digits: Seq<char>) -> int
    decreases digits.len(),
{
    if digits.len() == 0 {
        0
    } else {
        10 * number(digits.drop_last()) + (digits.last() as int - '0' as int)
    }
}

/// A number is written with the digits from 0 to 9, the first of which is a 0 only for zero, and
/// reading them gives the number.
pub proof fn decimals_are_read_back(n: nat)
    ensures
        number(decimal(n)) == n,
        decimal(n).len() > 0,
        forall|i: int| 0 <= i < decimal(n).len() ==> '0' <= #[trigger] decimal(n)[i] <= '9',
        n > 0 ==> decimal(n)[0] != '0',
    decreases n,
{
    reveal_with_fuel(number, 2);
    let d = decimal(n);
    if n < 10 {
        assert(d.drop_last() =~= Seq::<char>::empty());
    } else {
        decimals_are_read_back(n / 10);
        assert(d.drop_last() =~= decimal(n / 10));
        assert forall|i: int| 0 <= i < d.len() implies '0' <= #[trigger] d[i] <= '9' by {
            if i < d.len() - 1 {
                assert(d[i] == decimal(n / 10)[i]);
            }
        }
        assert(d[0] == decimal(n / 10)[0]);
    }
}

/// Texts are ordered as in a dictionary: by their first different characters, and where one text is
/// the beginning of the other, it comes first.
pub proof fn texts_are_ordered_as_in_a_dictionary(
    same: Seq<char>,
    a: char,
    b: char,
    s: Seq<char>,
    t: Seq<char>,
)
    ensures
        a != b ==> (text_before(same + seq![a] + s, same + seq![b] + t) <==> (a as u32) < (
        b as u32)),
        text_before(same, same + seq![b] + t),
        !text_before(same + seq![a] + s, same),
        !text_before(same, same),
    decreases same.len(),
{
    let x = same + seq![a] + s;
    let y = same + seq![b] + t;
    if same.len() > 0 {
        let rest = same.drop_first();
        texts_are_ordered_as_in_a_dictionary(rest, a, b, s, t);
        assert(x[0] == same[0] && y[0] == same[0]);
        assert(x.drop_first() =~= rest + seq![a] + s);
        assert(y.drop_first() =~= rest + seq![b] + t);
    } else {
        assert(x[0] == a && y[0] == b);
    }
}

} // verus!
