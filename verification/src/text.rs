//! Character-level text handling: the line, whitespace and separator rules
//! that the parsers and the renderer share, each stated over `Seq<char>`.

use vstd::prelude::*;

verus! {

/// `String::push`: the string afterwards is the string before with `c`
/// appended.
#[verifier::external_body]
pub(crate) fn push_char(s: &mut String, c: char)
    ensures
        final(s)@ == old(s)@.push(c),
{
    s.push(c);
}

/// The characters of `s`, in order.
pub fn chars_of(s: &str) -> (v: Vec<char>)
    ensures
        v@ == s@,
{
    let mut v: Vec<char> = Vec::new();
    for c in it: s.chars()
        invariant
            v@ == it.seq().take(it.index() as int),
    {
        v.push(c);
    }
    v
}

/// A string holding exactly the characters of `v`.
pub fn string_of(v: &[char]) -> (s: String)
    ensures
        s@ == v@,
{
    let mut s = String::new();
    let mut i: usize = 0;
    while i < v.len()
        invariant
            i <= v@.len(),
            s@ == v@.take(i as int),
        decreases v@.len() - i,
    {
        push_char(&mut s, v[i]);
        assert(v@.take(i + 1) =~= v@.take(i as int).push(v@[i as int]));
        i += 1;
    }
    assert(v@.take(i as int) =~= v@);
    s
}

/// Appends every character of `v` to `s`.
pub fn push_chars(s: &mut String, v: &[char])
    ensures
        final(s)@ == old(s)@ + v@,
{
    let ghost start = s@;
    let mut i: usize = 0;
    while i < v.len()
        invariant
            i <= v@.len(),
            s@ == start + v@.take(i as int),
        decreases v@.len() - i,
    {
        push_char(s, v[i]);
        assert(v@.take(i + 1) =~= v@.take(i as int).push(v@[i as int]));
        i += 1;
    }
    assert(v@.take(i as int) =~= v@);
}

/// Appends `t` to `s`.
pub fn push_str(s: &mut String, t: &str)
    ensures
        final(s)@ == old(s)@ + t@,
{
    s.append(t);
}

/// The Unicode `White_Space` characters: those for which
/// `char::is_whitespace` holds.
pub open spec fn is_space(c: char) -> bool {
    ||| '\t' <= c && c <= '\r'
    ||| c == ' '
    ||| c == '\u{85}'
    ||| c == '\u{a0}'
    ||| c == '\u{1680}'
    ||| '\u{2000}' <= c && c <= '\u{200a}'
    ||| c == '\u{2028}'
    ||| c == '\u{2029}'
    ||| c == '\u{202f}'
    ||| c == '\u{205f}'
    ||| c == '\u{3000}'
}

pub fn is_space_char(c: char) -> (b: bool)
    ensures
        b == is_space(c),
{
    ('\t' <= c && c <= '\r') || c == ' ' || c == '\u{85}' || c == '\u{a0}' || c == '\u{1680}'
        || ('\u{2000}' <= c && c <= '\u{200a}') || c == '\u{2028}' || c == '\u{2029}'
        || c == '\u{202f}' || c == '\u{205f}' || c == '\u{3000}'
}

/// `s` without its leading whitespace.
pub open spec fn trim_start(s: Seq<char>) -> Seq<char>
    decreases s.len(),
{
    if s.len() > 0 && is_space(s[0]) {
        trim_start(s.drop_first())
    } else {
        s
    }
}

/// `s` without its trailing whitespace.
pub open spec fn trim_end(s: Seq<char>) -> Seq<char>
    decreases s.len(),
{
    if s.len() > 0 && is_space(s.last()) {
        trim_end(s.drop_last())
    } else {
        s
    }
}

/// `s` without leading and trailing whitespace (`str::trim`).
pub open spec fn trim(s: Seq<char>) -> Seq<char> {
    trim_end(trim_start(s))
}

/// The bounds of `trim(s@)` within `s`.
pub fn trim_bounds(s: &[char]) -> (r: (usize, usize))
    ensures
        r.0 <= r.1 <= s@.len(),
        s@.subrange(r.0 as int, r.1 as int) == trim(s@),
        trim_start(s@) == s@.skip(r.0 as int),
{
    let mut a: usize = 0;
    assert(s@.skip(0) =~= s@);
    while a < s.len() && is_space_char(s[a])
        invariant
            a <= s@.len(),
            trim_start(s@) == trim_start(s@.skip(a as int)),
        decreases s@.len() - a,
    {
        assert(s@.skip(a as int).drop_first() =~= s@.skip(a + 1));
        a += 1;
    }
    let ghost t = s@.skip(a as int);
    let mut b: usize = s.len();
    assert(t =~= s@.subrange(a as int, b as int));
    while b > a && is_space_char(s[b - 1])
        invariant
            a <= b <= s@.len(),
            trim_end(t) == trim_end(s@.subrange(a as int, b as int)),
        decreases b,
    {
        assert(s@.subrange(a as int, b as int).drop_last() =~= s@.subrange(a as int, b - 1));
        b -= 1;
    }
    assert(a == s@.len() ==> t =~= s@.subrange(a as int, b as int));
    (a, b)
}

/// `str::trim` on a slice of characters.
pub fn trim_slice(s: &[char]) -> (r: &[char])
    ensures
        r@ == trim(s@),
{
    let (a, b) = trim_bounds(s);
    &s[a..b]
}


/// Index of the first `c` in `s`, or `s.len()` when there is none.
pub open spec fn first_index(s: Seq<char>, c: char) -> int
    decreases s.len(),
{
    if s.len() == 0 {
        0
    } else if s[0] == c {
        0
    } else {
        1 + first_index(s.drop_first(), c)
    }
}

/// What `first_index` is: the position before which no `c` occurs, and at
/// which `c` occurs unless it is the end.
pub proof fn lemma_first_index(s: Seq<char>, c: char, i: int)
    requires
        0 <= i <= s.len(),
        forall|j: int| 0 <= j < i ==> s[j] != c,
        i < s.len() ==> s[i] == c,
    ensures
        first_index(s, c) == i,
    decreases s.len(),
{
    if s.len() > 0 && s[0] != c {
        lemma_first_index(s.drop_first(), c, i - 1);
    }
}

/// Position of the first `c` in `s`, or its length when there is none.
pub fn find_char(s: &[char], c: char) -> (i: usize)
    ensures
        i as int == first_index(s@, c),
        i <= s@.len(),
        forall|j: int| 0 <= j < i ==> s@[j] != c,
        i < s@.len() ==> s@[i as int] == c,
{
    let mut i: usize = 0;
    while i < s.len() && s[i] != c
        invariant
            i <= s@.len(),
            forall|j: int| 0 <= j < i ==> s@[j] != c,
        decreases s@.len() - i,
    {
        i += 1;
    }
    proof {
        lemma_first_index(s@, c, i as int);
    }
    i
}

/// The first line of `s`, without its line ending: a `'\n'`, or `"\r\n"`.
pub open spec fn first_line(s: Seq<char>) -> Seq<char> {
    let i = first_index(s, '\n');
    if 0 <= i < s.len() {
        let l = s.take(i);
        if l.len() > 0 && l.last() == '\r' {
            l.drop_last()
        } else {
            l
        }
    } else {
        s
    }
}

/// What follows the first line ending of `s` (nothing if it has none).
pub open spec fn after_first_line(s: Seq<char>) -> Seq<char> {
    let i = first_index(s, '\n');
    if 0 <= i < s.len() {
        s.skip(i + 1)
    } else {
        Seq::empty()
    }
}

/// The lines of `s`, as `str::lines` yields them: split at each `'\n'`, a
/// `'\r'` before it dropped, and no empty line after a final line ending.
pub open spec fn lines(s: Seq<char>) -> Seq<Seq<char>>
    decreases s.len(),
{
    if s.len() == 0 {
        Seq::empty()
    } else {
        let i = first_index(s, '\n');
        if 0 <= i < s.len() {
            seq![first_line(s)] + lines(s.skip(i + 1))
        } else {
            seq![s]
        }
    }
}

/// `lines` of a non-empty text: its first line, then the lines of the rest.
pub proof fn lemma_lines_unfold(s: Seq<char>)
    requires
        s.len() > 0,
    ensures
        lines(s) == seq![first_line(s)] + lines(after_first_line(s)),
        after_first_line(s).len() < s.len(),
{
    let i = first_index(s, '\n');
    if 0 <= i < s.len() {
    } else {
        assert(lines(after_first_line(s)) =~= Seq::<Seq<char>>::empty());
        assert(seq![first_line(s)] + Seq::<Seq<char>>::empty() =~= seq![s]);
    }
}

/// The first line of `s` and the text after its line ending.
pub fn split_first_line(s: &[char]) -> (r: (&[char], &[char]))
    ensures
        r.0@ == first_line(s@),
        r.1@ == after_first_line(s@),
{
    let i = find_char(s, '\n');
    if i < s.len() {
        let rest = &s[i + 1..s.len()];
        assert(rest@ =~= s@.skip(i + 1));
        if i > 0 && s[i - 1] == '\r' {
            let line = &s[0..i - 1];
            assert(line@ =~= s@.take(i as int).drop_last());
            (line, rest)
        } else {
            let line = &s[0..i];
            assert(line@ =~= s@.take(i as int));
            (line, rest)
        }
    } else {
        let empty = &s[0..0];
        assert(empty@ =~= Seq::<char>::empty());
        assert(s@.subrange(0, s@.len() as int) =~= s@);
        (&s[0..s.len()], empty)
    }
}

/// The first maximal run of non-whitespace characters in `s`, if any
/// (`s.split_whitespace().next()`).
pub open spec fn first_token(s: Seq<char>) -> Option<Seq<char>> {
    let t = trim_start(s);
    if t.len() == 0 {
        None
    } else {
        Some(t.take(first_space(t)))
    }
}

/// Index of the first whitespace character of `s`, or its length.
pub open spec fn first_space(s: Seq<char>) -> int
    decreases s.len(),
{
    if s.len() == 0 {
        0
    } else if is_space(s[0]) {
        0
    } else {
        1 + first_space(s.drop_first())
    }
}

pub proof fn lemma_first_space(s: Seq<char>, i: int)
    requires
        0 <= i <= s.len(),
        forall|j: int| 0 <= j < i ==> !is_space(s[j]),
        i < s.len() ==> is_space(s[i]),
    ensures
        first_space(s) == i,
    decreases s.len(),
{
    if s.len() > 0 && !is_space(s[0]) {
        lemma_first_space(s.drop_first(), i - 1);
    }
}

/// The whitespace-separated words of `s` (`str::split_whitespace`).
pub open spec fn tokens(s: Seq<char>) -> Seq<Seq<char>>
    decreases s.len(),
{
    if s.len() == 0 {
        Seq::empty()
    } else if is_space(s[0]) {
        tokens(s.drop_first())
    } else {
        let k = first_space(s);
        if 1 <= k <= s.len() {
            seq![s.take(k)] + tokens(s.skip(k))
        } else {
            Seq::empty()
        }
    }
}

/// Bounds of the first word of `s` and the index just after it, when `s`
/// holds a word.
pub fn next_token(s: &[char]) -> (r: Option<(usize, usize)>)
    ensures
        match r {
            Some((a, b)) => {
                &&& a < b <= s@.len()
                &&& tokens(s@).len() > 0
                &&& tokens(s@)[0] == s@.subrange(a as int, b as int)
                &&& tokens(s@) == seq![tokens(s@)[0]] + tokens(s@.skip(b as int))
                &&& first_token(s@) == Some(s@.subrange(a as int, b as int))
            },
            None => tokens(s@).len() == 0 && first_token(s@) is None,
        },
{
    let mut a: usize = 0;
    assert(s@.skip(0) =~= s@);
    while a < s.len() && is_space_char(s[a])
        invariant
            a <= s@.len(),
            tokens(s@) == tokens(s@.skip(a as int)),
            trim_start(s@) == trim_start(s@.skip(a as int)),
        decreases s@.len() - a,
    {
        assert(s@.skip(a as int).drop_first() =~= s@.skip(a + 1));
        a += 1;
    }
    if a == s.len() {
        assert(s@.skip(a as int) =~= Seq::<char>::empty());
        return None;
    }
    let mut b: usize = a + 1;
    while b < s.len() && !is_space_char(s[b])
        invariant
            a < b <= s@.len(),
            forall|j: int| a <= j < b ==> !is_space(s@[j]),
        decreases s@.len() - b,
    {
        b += 1;
    }
    let ghost t = s@.skip(a as int);
    proof {
        lemma_first_space(t, b - a);
        assert(t.take(b - a) =~= s@.subrange(a as int, b as int));
        assert(t.skip(b - a) =~= s@.skip(b as int));
    }
    Some((a, b))
}

/// The words of `s`.
pub fn split_tokens(s: &[char]) -> (v: Vec<&[char]>)
    ensures
        v@.len() == tokens(s@).len(),
        forall|i: int| 0 <= i < v@.len() ==> #[trigger] v@[i]@ == tokens(s@)[i],
{
    let mut v: Vec<&[char]> = Vec::new();
    let mut cur: &[char] = s;
    let ghost done: Seq<Seq<char>> = Seq::empty();
    loop
        invariant
            tokens(s@) == done + tokens(cur@),
            v@.len() == done.len(),
            forall|i: int| 0 <= i < v@.len() ==> #[trigger] v@[i]@ == done[i],
        decreases cur@.len(),
    {
        match next_token(cur) {
            None => {
                assert(done + tokens(cur@) =~= done);
                return v;
            },
            Some((a, b)) => {
                let word = &cur[a..b];
                let rest = &cur[b..cur.len()];
                assert(rest@ =~= cur@.skip(b as int));
                proof {
                    assert(done + tokens(cur@) =~= done.push(word@) + tokens(rest@));
                    done = done.push(word@);
                }
                v.push(word);
                cur = rest;
            },
        }
    }
}

/// `s` without the prefix `p`, when `s` starts with `p` (`str::strip_prefix`).
pub open spec fn strip_prefix(s: Seq<char>, p: Seq<char>) -> Option<Seq<char>> {
    if p.len() <= s.len() && s.take(p.len() as int) == p {
        Some(s.skip(p.len() as int))
    } else {
        None
    }
}

/// Whether `s` starts with `p`.
pub fn starts_with(s: &[char], p: &[char]) -> (b: bool)
    ensures
        b == (p@.len() <= s@.len() && s@.take(p@.len() as int) == p@),
{
    if p.len() > s.len() {
        return false;
    }
    let mut i: usize = 0;
    while i < p.len()
        invariant
            p@.len() <= s@.len(),
            i <= p@.len(),
            forall|j: int| 0 <= j < i ==> s@[j] == p@[j],
        decreases p@.len() - i,
    {
        if s[i] != p[i] {
            assert(s@.take(p@.len() as int)[i as int] != p@[i as int]);
            return false;
        }
        i += 1;
    }
    assert(s@.take(p@.len() as int) =~= p@);
    true
}

/// `str::strip_prefix` on characters.
pub fn strip_prefix_slice<'a>(s: &'a [char], p: &[char]) -> (r: Option<&'a [char]>)
    ensures
        match r {
            Some(t) => strip_prefix(s@, p@) == Some(t@),
            None => strip_prefix(s@, p@) is None,
        },
{
    if starts_with(s, p) {
        let t = &s[p.len()..s.len()];
        assert(t@ =~= s@.skip(p@.len() as int));
        Some(t)
    } else {
        None
    }
}

/// The parts of `s` before and after its first `c` (`str::split_once`).
pub open spec fn split_once(s: Seq<char>, c: char) -> Option<(Seq<char>, Seq<char>)> {
    let i = first_index(s, c);
    if 0 <= i < s.len() {
        Some((s.take(i), s.skip(i + 1)))
    } else {
        None
    }
}

pub fn split_once_slice<'a>(s: &'a [char], c: char) -> (r: Option<(&'a [char], &'a [char])>)
    ensures
        match r {
            Some((a, b)) => split_once(s@, c) == Some((a@, b@)),
            None => split_once(s@, c) is None,
        },
{
    let i = find_char(s, c);
    if i < s.len() {
        let a = &s[0..i];
        let b = &s[i + 1..s.len()];
        assert(a@ =~= s@.take(i as int));
        assert(b@ =~= s@.skip(i + 1));
        Some((a, b))
    } else {
        None
    }
}


/// Whether two character slices are equal.
pub fn eq_chars(s: &[char], t: &[char]) -> (b: bool)
    ensures
        b == (s@ == t@),
{
    if s.len() != t.len() {
        return false;
    }
    let mut i: usize = 0;
    while i < s.len()
        invariant
            s@.len() == t@.len(),
            i <= s@.len(),
            forall|j: int| 0 <= j < i ==> s@[j] == t@[j],
        decreases s@.len() - i,
    {
        if s[i] != t[i] {
            return false;
        }
        i += 1;
    }
    assert(s@ =~= t@);
    true
}

/// Whether the characters `s` spell `word`.
pub fn eq_str(s: &[char], word: &str) -> (b: bool)
    ensures
        b == (s@ == word@),
{
    let w = chars_of(word);
    eq_chars(s, w.as_slice())
}

/// Whether two strings are equal.
pub fn same_text(a: &str, b: &str) -> (r: bool)
    ensures
        r == (a@ == b@),
{
    let x = chars_of(a);
    let y = chars_of(b);
    eq_chars(x.as_slice(), y.as_slice())
}

/// `n` copies of `c`.
pub open spec fn repeat_char(c: char, n: nat) -> Seq<char> {
    Seq::new(n, |_i: int| c)
}

/// Appends `n` copies of `c` to `out`.
pub fn push_repeat(out: &mut String, c: char, n: usize)
    ensures
        final(out)@ == old(out)@ + repeat_char(c, n as nat),
{
    let ghost start = out@;
    let mut i: usize = 0;
    while i < n
        invariant
            i <= n,
            out@ == start + repeat_char(c, i as nat),
        decreases n - i,
    {
        push_char(out, c);
        assert(repeat_char(c, (i + 1) as nat) =~= repeat_char(c, i as nat).push(c));
        i += 1;
    }
}


/// A vector holding the characters of `s`.
pub fn copy_chars(s: &[char]) -> (v: Vec<char>)
    ensures
        v@ == s@,
{
    let mut v: Vec<char> = Vec::new();
    let mut i: usize = 0;
    while i < s.len()
        invariant
            i <= s@.len(),
            v@ == s@.take(i as int),
        decreases s@.len() - i,
    {
        v.push(s[i]);
        assert(s@.take(i + 1) =~= s@.take(i as int).push(s@[i as int]));
        i += 1;
    }
    assert(s@.take(i as int) =~= s@);
    v
}


/// The lines of `s`, each as a string.
pub fn text_lines(s: &str) -> (v: Vec<String>)
    ensures
        v@.len() == lines(s@).len(),
        forall|i: int| 0 <= i < v@.len() ==> #[trigger] v@[i]@ == lines(s@)[i],
{
    let chars = chars_of(s);
    let mut v: Vec<String> = Vec::new();
    let mut cur: &[char] = chars.as_slice();
    let ghost done: Seq<Seq<char>> = Seq::empty();
    while cur.len() > 0
        invariant
            lines(s@) == done + lines(cur@),
            v@.len() == done.len(),
            forall|i: int| 0 <= i < v@.len() ==> #[trigger] v@[i]@ == done[i],
        decreases cur@.len(),
    {
        proof {
            lemma_lines_unfold(cur@);
        }
        let (line, rest) = split_first_line(cur);
        proof {
            assert(done + lines(cur@) =~= done.push(line@) + lines(rest@));
            done = done.push(line@);
        }
        v.push(string_of(line));
        cur = rest;
    }
    assert(lines(cur@) =~= Seq::<Seq<char>>::empty());
    assert(done + lines(cur@) =~= done);
    v
}

/// Lines, each followed by a line feed.
pub open spec fn terminated(ls: Seq<Seq<char>>) -> Seq<char>
    decreases ls.len(),
{
    if ls.len() == 0 {
        Seq::empty()
    } else {
        terminated(ls.drop_last()) + ls.last().push('\n')
    }
}


/// The texts of a sequence of strings.
pub open spec fn strings_view(v: Seq<String>) -> Seq<Seq<char>> {
    v.map_values(|s: String| s@)
}

/// The text of an optional string.
pub open spec fn opt_view(o: Option<String>) -> Option<Seq<char>> {
    match o {
        Some(s) => Some(s@),
        None => None,
    }
}


/// The pieces of `s` between the occurrences of `c` (`str::split` with a
/// character); an empty text is one empty piece.
pub open spec fn split_char(s: Seq<char>, c: char) -> Seq<Seq<char>>
    decreases s.len(),
{
    let i = first_index(s, c);
    if 0 <= i < s.len() {
        seq![s.take(i)] + split_char(s.skip(i + 1), c)
    } else {
        seq![s]
    }
}

/// The text before the first `c` (all of `s` when there is none).
pub open spec fn before_first(s: Seq<char>, c: char) -> Seq<char> {
    s.take(first_index(s, c))
}

/// Index of the last `c` in `s`, or -1 when there is none.
pub open spec fn last_index(s: Seq<char>, c: char) -> int
    decreases s.len(),
{
    if s.len() == 0 {
        -1
    } else if s.last() == c {
        s.len() - 1
    } else {
        last_index(s.drop_last(), c)
    }
}

/// The text after the last `c` (all of `s` when there is none): what
/// `s.rsplit(c).next()` yields.
pub open spec fn after_last(s: Seq<char>, c: char) -> Seq<char> {
    s.skip(last_index(s, c) + 1)
}

pub fn after_last_slice(s: &[char], c: char) -> (r: &[char])
    ensures
        r@ == after_last(s@, c),
{
    let mut i: usize = s.len();
    assert(s@.take(s@.len() as int) =~= s@);
    while i > 0 && s[i - 1] != c
        invariant
            i <= s@.len(),
            last_index(s@, c) == last_index(s@.take(i as int), c),
        decreases i,
    {
        assert(s@.take(i as int).drop_last() =~= s@.take(i - 1));
        i -= 1;
    }
    assert(i == 0 ==> s@.take(i as int) =~= Seq::<char>::empty());
    &s[i..s.len()]
}


/// A text has no more lines than characters.
pub proof fn lemma_lines_len(s: Seq<char>)
    ensures
        lines(s).len() <= s.len(),
    decreases s.len(),
{
    if s.len() > 0 {
        lemma_lines_unfold(s);
        lemma_lines_len(after_first_line(s));
    }
}


/// The first `Some` that `f` gives for a line of `ls`.
pub open spec fn find_map<T>(ls: Seq<Seq<char>>, f: spec_fn(Seq<char>) -> Option<T>) -> Option<T>
    decreases ls.len(),
{
    if ls.len() == 0 {
        None
    } else {
        match f(ls[0]) {
            Some(v) => Some(v),
            None => find_map(ls.drop_first(), f),
        }
    }
}

/// `find_map` over the lines of a non-empty text: its first line first.
pub proof fn lemma_find_map_lines<T>(s: Seq<char>, f: spec_fn(Seq<char>) -> Option<T>)
    requires
        s.len() > 0,
    ensures
        find_map(lines(s), f) == match f(first_line(s)) {
            Some(v) => Some(v),
            None => find_map(lines(after_first_line(s)), f),
        },
{
    lemma_lines_unfold(s);
    assert(lines(s)[0] == first_line(s));
    assert(lines(s).drop_first() =~= lines(after_first_line(s)));
}

/// `s` without its leading `c` characters (`str::trim_start_matches`).
pub open spec fn trim_start_char(s: Seq<char>, c: char) -> Seq<char>
    decreases s.len(),
{
    if s.len() > 0 && s[0] == c {
        trim_start_char(s.drop_first(), c)
    } else {
        s
    }
}

/// `s` without its trailing `c` characters (`str::trim_end_matches`).
pub open spec fn trim_end_char(s: Seq<char>, c: char) -> Seq<char>
    decreases s.len(),
{
    if s.len() > 0 && s.last() == c {
        trim_end_char(s.drop_last(), c)
    } else {
        s
    }
}

pub fn trim_start_char_slice(s: &[char], c: char) -> (r: &[char])
    ensures
        r@ == trim_start_char(s@, c),
{
    let mut a: usize = 0;
    assert(s@.skip(0) =~= s@);
    while a < s.len() && s[a] == c
        invariant
            a <= s@.len(),
            trim_start_char(s@, c) == trim_start_char(s@.skip(a as int), c),
        decreases s@.len() - a,
    {
        assert(s@.skip(a as int).drop_first() =~= s@.skip(a + 1));
        a += 1;
    }
    assert(s@.skip(a as int) =~= s@.subrange(a as int, s@.len() as int));
    &s[a..s.len()]
}

pub fn trim_end_char_slice(s: &[char], c: char) -> (r: &[char])
    ensures
        r@ == trim_end_char(s@, c),
{
    let mut b: usize = s.len();
    assert(s@.take(b as int) =~= s@);
    while b > 0 && s[b - 1] == c
        invariant
            b <= s@.len(),
            trim_end_char(s@, c) == trim_end_char(s@.take(b as int), c),
        decreases b,
    {
        assert(s@.take(b as int).drop_last() =~= s@.take(b - 1));
        b -= 1;
    }
    assert(s@.take(b as int) =~= s@.subrange(0, b as int));
    &s[0..b]
}

/// The first word of `s`, if any.
pub fn first_token_slice(s: &[char]) -> (r: Option<&[char]>)
    ensures
        match r {
            Some(t) => first_token(s@) == Some(t@),
            None => first_token(s@) is None,
        },
{
    match next_token(s) {
        Some((a, b)) => Some(&s[a..b]),
        None => None,
    }
}


/// What follows `p` on the first line of `s` that starts with `p`.
pub fn find_prefixed_line<'a>(s: &'a [char], p: &[char]) -> (r: Option<&'a [char]>)
    ensures
        match r {
            Some(t) => find_map(lines(s@), |l: Seq<char>| strip_prefix(l, p@)) == Some(t@),
            None => find_map(lines(s@), |l: Seq<char>| strip_prefix(l, p@)) is None,
        },
{
    let ghost f = |l: Seq<char>| strip_prefix(l, p@);
    let mut cur: &[char] = s;
    while cur.len() > 0
        invariant
            find_map(lines(s@), f) == find_map(lines(cur@), f),
            f == (|l: Seq<char>| strip_prefix(l, p@)),
        decreases cur@.len(),
    {
        proof {
            lemma_find_map_lines(cur@, f);
        }
        let (line, rest) = split_first_line(cur);
        let found = strip_prefix_slice(line, p);
        if found.is_some() {
            return found;
        }
        cur = rest;
    }
    None
}

/// Position of the first occurrence of `p` in `s`, or -1.
pub open spec fn find_sub(s: Seq<char>, p: Seq<char>) -> int
    decreases s.len(),
{
    if p.len() > s.len() {
        -1
    } else if s.take(p.len() as int) == p {
        0
    } else if s.len() == 0 {
        -1
    } else {
        let r = find_sub(s.drop_first(), p);
        if r < 0 {
            -1
        } else {
            r + 1
        }
    }
}

/// The parts of `s` before and after the first occurrence of `p`
/// (`str::split_once` with a text pattern).
pub open spec fn split_once_str(s: Seq<char>, p: Seq<char>) -> Option<(Seq<char>, Seq<char>)> {
    let i = find_sub(s, p);
    if i >= 0 {
        Some((s.take(i), s.skip(i + p.len())))
    } else {
        None
    }
}

pub open spec fn shifted(r: int, by: int) -> int {
    if r < 0 {
        -1
    } else {
        r + by
    }
}

proof fn lemma_find_sub_bound(s: Seq<char>, p: Seq<char>)
    ensures
        find_sub(s, p) >= 0 ==> find_sub(s, p) + p.len() <= s.len(),
        find_sub(s, p) >= -1,
    decreases s.len(),
{
    if p.len() <= s.len() && s.take(p.len() as int) != p && s.len() > 0 {
        lemma_find_sub_bound(s.drop_first(), p);
    }
}

pub fn split_once_str_slice<'a>(s: &'a [char], p: &[char]) -> (r: Option<(&'a [char], &'a [char])>)
    ensures
        match r {
            Some((a, b)) => split_once_str(s@, p@) == Some((a@, b@)),
            None => split_once_str(s@, p@) is None,
        },
{
    let mut i: usize = 0;
    assert(s@.skip(0) =~= s@);
    while i <= s.len() && s.len() - i >= p.len()
        invariant
            i <= s@.len(),
            find_sub(s@, p@) == shifted(find_sub(s@.skip(i as int), p@), i as int),
        decreases s@.len() - i,
    {
        let rest = &s[i..s.len()];
        assert(rest@ =~= s@.skip(i as int));
        assert(p@.len() == 0 ==> rest@.take(0) =~= p@);
        if starts_with(rest, p) {
            proof {
                lemma_find_sub_bound(s@, p@);
            }
            let a = &s[0..i];
            let b = &s[i + p.len()..s.len()];
            assert(a@ =~= s@.take(i as int));
            assert(b@ =~= s@.skip(i + p@.len()));
            return Some((a, b));
        }
        assert(s@.skip(i as int).drop_first() =~= s@.skip(i + 1));
        i += 1;
    }
    proof {
        lemma_find_sub_bound(s@, p@);
    }
    None
}

/// Index of the first character of `s` that is not an ASCII digit, or its
/// length.
pub open spec fn digit_run(s: Seq<char>) -> int
    decreases s.len(),
{
    if s.len() > 0 && '0' <= s[0] && s[0] <= '9' {
        1 + digit_run(s.drop_first())
    } else {
        0
    }
}

pub fn digit_prefix(s: &[char]) -> (r: &[char])
    ensures
        0 <= digit_run(s@) <= s@.len(),
        r@ == s@.take(digit_run(s@)),
{
    let mut i: usize = 0;
    assert(s@.skip(0) =~= s@);
    while i < s.len() && '0' <= s[i] && s[i] <= '9'
        invariant
            i <= s@.len(),
            digit_run(s@) == i + digit_run(s@.skip(i as int)),
        decreases s@.len() - i,
    {
        assert(s@.skip(i as int).drop_first() =~= s@.skip(i + 1));
        i += 1;
    }
    &s[0..i]
}


/// Whether `p` occurs in `s`.
pub fn contains_sub(s: &[char], p: &[char]) -> (b: bool)
    ensures
        b == (find_sub(s@, p@) >= 0),
{
    split_once_str_slice(s, p).is_some()
}

/// `c` with ASCII capitals made small (`char::to_ascii_lowercase`).
pub open spec fn ascii_lower(c: char) -> char {
    if 'A' <= c && c <= 'Z' {
        ((c as u32 + 32) as u8) as char
    } else {
        c
    }
}

/// `s` with ASCII capitals made small (`str::to_ascii_lowercase`).
pub open spec fn ascii_lowercase(s: Seq<char>) -> Seq<char> {
    s.map_values(|c: char| ascii_lower(c))
}

pub fn ascii_lowercase_chars(s: &[char]) -> (v: Vec<char>)
    ensures
        v@ == ascii_lowercase(s@),
{
    let mut v: Vec<char> = Vec::new();
    let mut i: usize = 0;
    while i < s.len()
        invariant
            i <= s@.len(),
            v@ == ascii_lowercase(s@.take(i as int)),
        decreases s@.len() - i,
    {
        let c = s[i];
        let l = if 'A' <= c && c <= 'Z' {
            ((c as u32 + 32) as u8) as char
        } else {
            c
        };
        v.push(l);
        assert(ascii_lowercase(s@.take(i + 1)) =~= ascii_lowercase(s@.take(i as int)).push(l));
        i += 1;
    }
    assert(s@.take(i as int) =~= s@);
    v
}

} // verus!
