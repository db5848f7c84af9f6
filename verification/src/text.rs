//! Text as a sequence of characters: trimming, splitting and searching.
use vstd::prelude::*;
use vstd::slice::slice_subrange;

verus! {

/// `String::push` appends the given character to the end of the string.
pub assume_specification[ String::push ](s: &mut String, c: char)
    ensures
        final(s)@ == old(s)@.push(c),
;

/// Whether `c` has the Unicode property `White_Space`.
pub open spec fn white_space(c: char) -> bool {
    let n = c as u32;
    ||| 0x9 <= n <= 0xd
    ||| n == 0x20
    ||| n == 0x85
    ||| n == 0xa0
    ||| n == 0x1680
    ||| 0x2000 <= n <= 0x200a
    ||| n == 0x2028
    ||| n == 0x2029
    ||| n == 0x202f
    ||| n == 0x205f
    ||| n == 0x3000
}

/// `s` without its leading white space.
pub open spec fn trimmed_start(s: Seq<char>) -> Seq<char>
    decreases s.len(),
{
    if s.len() > 0 && white_space(s.first()) {
        trimmed_start(s.drop_first())
    } else {
        s
    }
}

/// `s` without its trailing white space.
pub open spec fn trimmed_end(s: Seq<char>) -> Seq<char>
    decreases s.len(),
{
    if s.len() > 0 && white_space(s.last()) {
        trimmed_end(s.drop_last())
    } else {
        s
    }
}

/// `s` without white space at either end.
pub open spec fn trimmed(s: Seq<char>) -> Seq<char> {
    trimmed_end(trimmed_start(s))
}

/// The position of the first `c` in `s`, or the length of `s` if there is none.
pub open spec fn find(s: Seq<char>, c: char) -> int
    decreases s.len(),
{
    if s.len() == 0 || s.first() == c {
        0
    } else {
        1 + find(s.drop_first(), c)
    }
}

/// A line that was ended by a line feed, without the carriage return that may precede it.
pub open spec fn without_carriage_return(line: Seq<char>) -> Seq<char> {
    if line.len() > 0 && line.last() == '\r' {
        line.drop_last()
    } else {
        line
    }
}

/// The lines of `s`, each without its line ending. The last line needs none.
pub open spec fn lines_of(s: Seq<char>) -> Seq<Seq<char>>
    decreases s.len(),
{
    proof {
        lemma_find(s, '\n');
    }
    if s.len() == 0 {
        Seq::empty()
    } else if find(s, '\n') >= s.len() {
        seq![s]
    } else {
        seq![without_carriage_return(s.take(find(s, '\n')))] + lines_of(s.skip(find(s, '\n') + 1))
    }
}

/// What stands before and after the first `c` in `s`.
pub open spec fn halves(s: Seq<char>, c: char) -> Option<(Seq<char>, Seq<char>)> {
    if find(s, c) < s.len() {
        Some((s.take(find(s, c)), s.skip(find(s, c) + 1)))
    } else {
        None
    }
}

/// Whether `part` occurs in `s` from position `i` on.
pub open spec fn occurs_at(s: Seq<char>, part: Seq<char>, i: int) -> bool {
    0 <= i && i + part.len() <= s.len() && s.subrange(i, i + part.len()) == part
}

/// Whether `part` occurs somewhere in `s`.
pub open spec fn contains_text(s: Seq<char>, part: Seq<char>) -> bool {
    exists|i: int| occurs_at(s, part, i)
}

/// `find` points at the first `c`, or at the end of a text without `c`.
pub proof fn lemma_find(s: Seq<char>, c: char)
    ensures
        0 <= find(s, c) <= s.len(),
        find(s, c) < s.len() ==> s[find(s, c)] == c,
        forall|j: int| 0 <= j < find(s, c) ==> s[j] != c,
        find(s, c) == s.len() <==> !s.contains(c),
    decreases s.len(),
{
    if s.len() > 0 && s.first() != c {
        let rest = s.drop_first();
        lemma_find(rest, c);
        assert forall|j: int| 0 <= j < find(s, c) implies s[j] != c by {
            if j > 0 {
                assert(rest[j - 1] == s[j]);
            }
        }
        if rest.contains(c) {
            let k = choose|k: int| 0 <= k < rest.len() && rest[k] == c;
            assert(s[k + 1] == c);
        }
        if s.contains(c) {
            let k = choose|k: int| 0 <= k < s.len() && s[k] == c;
            assert(rest[k - 1] == c);
        }
    }
}

/// A position that holds `c`, with none before it, is the one that `find` gives.
pub proof fn lemma_find_is(s: Seq<char>, c: char, i: int)
    requires
        0 <= i <= s.len(),
        i < s.len() ==> s[i] == c,
        forall|j: int| 0 <= j < i ==> s[j] != c,
    ensures
        find(s, c) == i,
{
    lemma_find(s, c);
}

/// Trimming at the start leaves a suffix that begins with no white space.
pub proof fn lemma_trimmed_start(s: Seq<char>, i: int)
    requires
        0 <= i <= s.len(),
        i < s.len() ==> !white_space(s[i]),
        forall|j: int| 0 <= j < i ==> white_space(s[j]),
    ensures
        trimmed_start(s) == s.skip(i),
    decreases i,
{
    if i > 0 {
        assert(s.drop_first().skip(i - 1) =~= s.skip(i));
        lemma_trimmed_start(s.drop_first(), i - 1);
    } else {
        assert(s.skip(0) =~= s);
    }
}

/// Trimming at the end leaves a prefix that ends with no white space.
pub proof fn lemma_trimmed_end(s: Seq<char>, i: int)
    requires
        0 <= i <= s.len(),
        i > 0 ==> !white_space(s[i - 1]),
        forall|j: int| i <= j < s.len() ==> white_space(s[j]),
    ensures
        trimmed_end(s) == s.take(i),
    decreases s.len() - i,
{
    if i < s.len() {
        assert(s.drop_last().take(i) =~= s.take(i));
        lemma_trimmed_end(s.drop_last(), i);
    } else {
        assert(s.take(i) =~= s);
    }
}

/// What is left after trimming is a part of the text with no white space at either end.
pub proof fn lemma_trimmed(s: Seq<char>)
    ensures
        exists|i: int, j: int|
            0 <= i <= j <= s.len() && trimmed(s) == #[trigger] s.subrange(i, j),
        trimmed(s).len() > 0 ==> !white_space(trimmed(s).first()) && !white_space(
            trimmed(s).last(),
        ),
{
    lemma_start_is_suffix(s);
    let i = choose|i: int| 0 <= i <= s.len() && trimmed_start(s) == s.skip(i);
    let t = trimmed_start(s);
    lemma_end_is_prefix(t);
    let j = choose|j: int| 0 <= j <= t.len() && trimmed_end(t) == t.take(j);
    assert(trimmed(s) =~= s.subrange(i, i + j));
}

proof fn lemma_start_is_suffix(s: Seq<char>)
    ensures
        exists|i: int| 0 <= i <= s.len() && trimmed_start(s) == #[trigger] s.skip(i),
        trimmed_start(s).len() > 0 ==> !white_space(trimmed_start(s).first()),
    decreases s.len(),
{
    if s.len() > 0 && white_space(s.first()) {
        let rest = s.drop_first();
        lemma_start_is_suffix(rest);
        let i = choose|i: int| 0 <= i <= rest.len() && trimmed_start(rest) == rest.skip(i);
        assert(s.skip(i + 1) =~= rest.skip(i));
    } else {
        assert(s.skip(0) =~= s);
    }
}

proof fn lemma_end_is_prefix(s: Seq<char>)
    ensures
        exists|i: int| 0 <= i <= s.len() && trimmed_end(s) == #[trigger] s.take(i),
        trimmed_end(s).len() > 0 ==> !white_space(trimmed_end(s).last()),
    decreases s.len(),
{
    if s.len() > 0 && white_space(s.last()) {
        let rest = s.drop_last();
        lemma_end_is_prefix(rest);
        let i = choose|i: int| 0 <= i <= rest.len() && trimmed_end(rest) == rest.take(i);
        assert(s.take(i) =~= rest.take(i));
    } else {
        assert(s.take(s.len() as int) =~= s);
    }
}

/// A text with no white space at either end is left alone by trimming.
pub proof fn lemma_trimmed_is_same(s: Seq<char>)
    requires
        s.len() > 0 ==> !white_space(s.first()) && !white_space(s.last()),
    ensures
        trimmed(s) == s,
{
}

/// Trimming a second time changes nothing.
pub proof fn lemma_trimmed_twice(s: Seq<char>)
    ensures
        trimmed(trimmed(s)) == trimmed(s),
{
    lemma_trimmed(s);
    lemma_trimmed_is_same(trimmed(s));
}

/// The lines of a text that begins with a terminated line.
pub proof fn lemma_lines_of_first(line: Seq<char>, rest: Seq<char>)
    requires
        !line.contains('\n'),
        line.len() > 0 ==> line.last() != '\r',
    ensures
        lines_of(line.push('\n') + rest) == seq![line] + lines_of(rest),
{
    let s = line.push('\n') + rest;
    assert forall|j: int| 0 <= j < line.len() implies s[j] != '\n' by {
        assert(s[j] == line[j]);
        assert(line.contains(line[j]));
    }
    lemma_find_is(s, '\n', line.len() as int);
    assert(s.take(line.len() as int) =~= line);
    assert(s.skip(line.len() as int + 1) =~= rest);
}

/// Every line is free of line feeds.
pub proof fn lemma_lines_of(s: Seq<char>)
    ensures
        forall|i: int| 0 <= i < lines_of(s).len() ==> !(#[trigger] lines_of(s)[i]).contains('\n'),
    decreases s.len(),
{
    lemma_find(s, '\n');
    let n = find(s, '\n');
    if s.len() == 0 {
    } else if n >= s.len() {
    } else {
        lemma_lines_of(s.skip(n + 1));
        let head = without_carriage_return(s.take(n));
        assert(!head.contains('\n')) by {
            assert forall|k: int| 0 <= k < head.len() implies head[k] != '\n' by {
                assert(head[k] == s[k]);
            }
        }
        assert forall|i: int| 0 <= i < lines_of(s).len() implies !(#[trigger] lines_of(
            s,
        )[i]).contains('\n') by {
            if i > 0 {
                assert(lines_of(s)[i] == lines_of(s.skip(n + 1))[i - 1]);
            }
        }
    }
}

/// Whether `c` is white space.
pub fn is_white_space(c: char) -> (r: bool)
    ensures
        r == white_space(c),
{
    let n: u32 = c as u32;
    (0x9 <= n && n <= 0xd) || n == 0x20 || n == 0x85 || n == 0xa0 || n == 0x1680 || (0x2000 <= n
        && n <= 0x200a) || n == 0x2028 || n == 0x2029 || n == 0x202f || n == 0x205f || n == 0x3000
}

/// The characters of `s`.
pub fn to_chars(s: &str) -> (chars: Vec<char>)
    ensures
        chars@ == s@,
{
    let mut chars: Vec<char> = Vec::new();
    for c in it: s.chars()
        invariant
            chars@ == it.seq().take(it.index() as int),
            it.seq() == s@,
    {
        chars.push(c);
    }
    chars
}

/// The string made of the characters `s`.
pub fn to_text(s: &[char]) -> (text: String)
    ensures
        text@ == s@,
{
    let mut text = String::new();
    let mut i: usize = 0;
    while i < s.len()
        invariant
            i <= s.len(),
            text@ == s@.take(i as int),
        decreases s.len() - i,
    {
        text.push(s[i]);
        i += 1;
    }
    text
}

/// Whether `s` spells `text`.
pub fn is_text(s: &[char], text: &str) -> (r: bool)
    ensures
        r == (s@ == text@),
{
    let other = to_chars(text);
    if s.len() != other.len() {
        return false;
    }
    let mut i: usize = 0;
    while i < s.len()
        invariant
            i <= s.len(),
            other@ == text@,
            s@.len() == other@.len(),
            forall|j: int| 0 <= j < i ==> s@[j] == other@[j],
        decreases s.len() - i,
    {
        if s[i] != other[i] {
            return false;
        }
        i += 1;
    }
    assert(s@ =~= other@);
    true
}

/// `s` without white space at either end.
pub fn trim(s: &[char]) -> (r: &[char])
    ensures
        r@ == trimmed(s@),
{
    let mut i: usize = 0;
    while i < s.len() && is_white_space(s[i])
        invariant
            i <= s.len(),
            forall|k: int| 0 <= k < i ==> white_space(s@[k]),
        decreases s.len() - i,
    {
        i += 1;
    }
    proof {
        lemma_trimmed_start(s@, i as int);
    }
    let mut j: usize = s.len();
    while j > i && is_white_space(s[j - 1])
        invariant
            i <= j <= s.len(),
            forall|k: int| j <= k < s.len() ==> white_space(s@[k]),
        decreases j,
    {
        j -= 1;
    }
    proof {
        lemma_trimmed_end(s@.skip(i as int), j - i);
        assert(s@.skip(i as int).take(j - i) =~= s@.subrange(i as int, j as int));
    }
    slice_subrange(s, i, j)
}

/// The position of the first `c` in `s`, or the length of `s` if there is none.
pub fn position(s: &[char], c: char) -> (r: usize)
    ensures
        r == find(s@, c),
        r <= s@.len(),
{
    let mut i: usize = 0;
    while i < s.len() && s[i] != c
        invariant
            i <= s.len(),
            forall|k: int| 0 <= k < i ==> s@[k] != c,
        decreases s.len() - i,
    {
        i += 1;
    }
    proof {
        lemma_find_is(s@, c, i as int);
    }
    i
}

/// What stands before and after the first `c` in `s`, if `c` occurs.
pub fn split_once<'a>(s: &'a [char], c: char) -> (r: Option<(&'a [char], &'a [char])>)
    ensures
        match r {
            Some((before, after)) => halves(s@, c) == Some((before@, after@)),
            None => halves(s@, c) is None,
        },
{
    let i = position(s, c);
    if i < s.len() {
        let before = slice_subrange(s, 0, i);
        let after = slice_subrange(s, i + 1, s.len());
        assert(before@ =~= s@.take(i as int));
        assert(after@ =~= s@.skip(i + 1));
        Some((before, after))
    } else {
        None
    }
}

/// The lines of `s`, each without its line ending.
pub fn lines<'a>(s: &'a [char]) -> (r: Vec<&'a [char]>)
    ensures
        r@.len() == lines_of(s@).len(),
        forall|i: int| 0 <= i < r@.len() ==> (#[trigger] r@[i])@ == lines_of(s@)[i],
{
    let mut out: Vec<&'a [char]> = Vec::new();
    let mut rest: &'a [char] = s;
    let ghost mut done: Seq<Seq<char>> = Seq::empty();
    while rest.len() > 0
        invariant
            lines_of(s@) == done + lines_of(rest@),
            out@.len() == done.len(),
            forall|i: int| 0 <= i < out@.len() ==> (#[trigger] out@[i])@ == done[i],
        decreases rest@.len(),
    {
        let n = position(rest, '\n');
        let ghost before = rest@;
        let ghost tail = lines_of(rest@).skip(1);
        proof {
            lemma_find(rest@, '\n');
        }
        let end = if n < rest.len() && n > 0 && rest[n - 1] == '\r' {
            n - 1
        } else {
            n
        };
        let line = slice_subrange(rest, 0, end);
        let next = if n < rest.len() {
            n + 1
        } else {
            n
        };
        rest = slice_subrange(rest, next, rest.len());
        proof {
            if n < before.len() {
                assert(line@ =~= without_carriage_return(before.take(n as int)));
                assert(rest@ =~= before.skip(n + 1));
            } else {
                assert(line@ =~= before);
                assert(rest@ =~= Seq::<char>::empty());
            }
            assert(lines_of(before) =~= seq![line@] + lines_of(rest@));
            assert(done + lines_of(before) =~= done.push(line@) + lines_of(rest@));
            done = done.push(line@);
        }
        out.push(line);
    }
    assert(done + lines_of(rest@) =~= done);
    out
}

/// Whether `part` occurs in `s`.
pub fn contains(s: &[char], part: &str) -> (r: bool)
    ensures
        r == contains_text(s@, part@),
{
    let part_chars = to_chars(part);
    if part_chars.len() > s.len() {
        return false;
    }
    let last: usize = s.len() - part_chars.len();
    let mut i: usize = 0;
    loop
        invariant
            i <= last,
            last + part_chars.len() == s.len(),
            part_chars@ == part@,
            forall|k: int| 0 <= k < i ==> !occurs_at(s@, part@, k),
        decreases last - i,
    {
        let window = slice_subrange(s, i, i + part_chars.len());
        if is_text(window, part) {
            assert(occurs_at(s@, part@, i as int));
            return true;
        }
        if i == last {
            return false;
        }
        i += 1;
    }
}

/// The white space of Unicode is these 25 characters.
pub proof fn white_space_is_told_by_the_code_point(c: char)
    ensures
        white_space(c) <==> set![
            9u32,
            10u32,
            11u32,
            12u32,
            13u32,
            32u32,
            133u32,
            160u32,
            5760u32,
            8192u32,
            8193u32,
            8194u32,
            8195u32,
            8196u32,
            8197u32,
            8198u32,
            8199u32,
            8200u32,
            8201u32,
            8202u32,
            8232u32,
            8233u32,
            8239u32,
            8287u32,
            12288u32,
        ].contains(c as u32),
{
}

/// Trimming takes away white space at both ends and nothing else, and leaves none there.
pub proof fn trimming_leaves_the_middle(s: Seq<char>)
    ensures
        exists|i: int, j: int|
            {
                &&& 0 <= i <= j <= s.len()
                &&& trimmed(s) == #[trigger] s.subrange(i, j)
                &&& forall|k: int| 0 <= k < i || j <= k < s.len() ==> white_space(#[trigger] s[k])
                &&& i < j ==> !white_space(s[i]) && !white_space(s[j - 1])
            },
{
    lemma_start_is_white_space(s);
    let i = choose|i: int|
        0 <= i <= s.len() && trimmed_start(s) == #[trigger] s.skip(i) && forall|k: int|
            0 <= k < i ==> white_space(#[trigger] s[k]);
    let t = trimmed_start(s);
    lemma_start_is_suffix(s);
    lemma_end_is_white_space(t);
    let n = choose|n: int|
        0 <= n <= t.len() && trimmed_end(t) == #[trigger] t.take(n) && forall|k: int|
            n <= k < t.len() ==> white_space(#[trigger] t[k]);
    lemma_end_is_prefix(t);
    let j = i + n;
    assert(trimmed(s) =~= s.subrange(i, j));
    assert forall|k: int| 0 <= k < i || j <= k < s.len() implies white_space(#[trigger] s[k]) by {
        if k >= j {
            assert(t[k - i] == s[k]);
        }
    }
    if i < j {
        assert(trimmed_end(t).last() == s[j - 1]);
        assert(t.first() == s[i]);
    }
}

proof fn lemma_start_is_white_space(s: Seq<char>)
    ensures
        exists|i: int|
            0 <= i <= s.len() && trimmed_start(s) == #[trigger] s.skip(i) && forall|k: int|
                0 <= k < i ==> white_space(#[trigger] s[k]),
    decreases s.len(),
{
    if s.len() > 0 && white_space(s.first()) {
        let rest = s.drop_first();
        lemma_start_is_white_space(rest);
        let i = choose|i: int|
            0 <= i <= rest.len() && trimmed_start(rest) == #[trigger] rest.skip(i) && forall|k: int|
                0 <= k < i ==> white_space(#[trigger] rest[k]);
        assert(s.skip(i + 1) =~= rest.skip(i));
        assert forall|k: int| 0 <= k < i + 1 implies white_space(#[trigger] s[k]) by {
            if k > 0 {
                assert(rest[k - 1] == s[k]);
            }
        }
    } else {
        assert(s.skip(0) =~= s);
    }
}

proof fn lemma_end_is_white_space(s: Seq<char>)
    ensures
        exists|n: int|
            0 <= n <= s.len() && trimmed_end(s) == #[trigger] s.take(n) && forall|k: int|
                n <= k < s.len() ==> white_space(#[trigger] s[k]),
    decreases s.len(),
{
    if s.len() > 0 && white_space(s.last()) {
        let rest = s.drop_last();
        lemma_end_is_white_space(rest);
        let n = choose|n: int|
            0 <= n <= rest.len() && trimmed_end(rest) == #[trigger] rest.take(n) && forall|k: int|
                n <= k < rest.len() ==> white_space(#[trigger] rest[k]);
        assert(s.take(n) =~= rest.take(n));
        assert forall|k: int| n <= k < s.len() implies white_space(#[trigger] s[k]) by {
            if k < rest.len() {
                assert(rest[k] == s[k]);
            }
        }
    } else {
        assert(s.take(s.len() as int) =~= s);
    }
}

/// A line ends at the first line feed and loses it, with one carriage return before it. What
/// follows is split in the same way, the last line needs no line feed, and an empty text has no
/// line.
pub proof fn lines_end_at_line_feeds(line: Seq<char>, rest: Seq<char>)
    requires
        !line.contains('\n'),
    ensures
        lines_of(Seq::empty()) == Seq::<Seq<char>>::empty(),
        line.len() > 0 ==> lines_of(line) == seq![line],
        !(line.len() > 0 && line.last() == '\r') ==> lines_of(line.push('\n') + rest) == seq![line]
            + lines_of(rest),
        lines_of(line.push('\r').push('\n') + rest) == seq![line] + lines_of(rest),
{
    lemma_find(line, '\n');
    if !(line.len() > 0 && line.last() == '\r') {
        lemma_lines_of_first(line, rest);
    }
    let ended = line.push('\r');
    let s = ended.push('\n') + rest;
    assert forall|j: int| 0 <= j < ended.len() implies s[j] != '\n' by {
        assert(s[j] == ended[j]);
        if j < line.len() {
            assert(line.contains(line[j]));
        }
    }
    lemma_find_is(s, '\n', ended.len() as int);
    assert(s.take(ended.len() as int) =~= ended);
    assert(s.skip(ended.len() as int + 1) =~= rest);
    assert(ended.drop_last() =~= line);
}

/// What stands around the first occurrence of a character makes up the text, and the character
/// does not occur before it.
pub proof fn halves_make_up_the_text(s: Seq<char>, c: char)
    ensures
        match halves(s, c) {
            Some((before, after)) => s == before + seq![c] + after && !before.contains(c),
            None => !s.contains(c),
        },
{
    lemma_find(s, c);
    if let Some((before, after)) = halves(s, c) {
        assert(s =~= before + seq![c] + after);
        assert forall|k: int| 0 <= k < before.len() implies before[k] != c by {
            assert(before[k] == s[k]);
        }
    }
}

/// A text is split in one way only where the first part lacks the character.
pub proof fn lemma_halves_are(s: Seq<char>, c: char, before: Seq<char>, after: Seq<char>)
    requires
        s == before + seq![c] + after,
        !before.contains(c),
    ensures
        halves(s, c) == Some((before, after)),
{
    let n = before.len() as int;
    assert forall|j: int| 0 <= j < n implies s[j] != c by {
        assert(s[j] == before[j]);
        assert(before.contains(before[j]));
    }
    assert(s[n] == c);
    lemma_find_is(s, c, n);
    assert(s.take(n) =~= before);
    assert(s.skip(n + 1) =~= after);
}

} // verus!
