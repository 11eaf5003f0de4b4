//! Word splitting and greedy line wrapping for text drawn on a canvas.

use vstd::prelude::*;

verus! {

/// Unicode `White_Space` property: the characters that separate words.
pub open spec fn is_white_space(c: char) -> bool {
    let n = c as u32;
    ||| 0x9 <= n <= 0xD
    ||| n == 0x20
    ||| n == 0x85
    ||| n == 0xA0
    ||| n == 0x1680
    ||| 0x2000 <= n <= 0x200A
    ||| n == 0x2028
    ||| n == 0x2029
    ||| n == 0x202F
    ||| n == 0x205F
    ||| n == 0x3000
}

/// Whether a character is Unicode white space.
pub fn char_is_white_space(c: char) -> (b: bool)
    ensures
        b == is_white_space(c),
{
    let n = c as u32;
    (0x9 <= n && n <= 0xD) || n == 0x20 || n == 0x85 || n == 0xA0 || n == 0x1680
        || (0x2000 <= n && n <= 0x200A) || n == 0x2028 || n == 0x2029 || n == 0x202F
        || n == 0x205F || n == 0x3000
}

/// The words of a text: its maximal runs of non-white-space characters, in order.
/// Read left to right: white space closes the current word; any other character
/// extends the current word when the character before it was not white space,
/// and starts a new word otherwise.
pub open spec fn split_words_spec(s: Seq<char>) -> Seq<Seq<char>>
    decreases s.len(),
{
    if s.len() == 0 {
        seq![]
    } else {
        let prev = split_words_spec(s.drop_last());
        let c = s.last();
        if is_white_space(c) {
            prev
        } else if s.len() >= 2 && !is_white_space(s[s.len() - 2]) {
            prev.update(prev.len() - 1, prev.last().push(c))
        } else {
            prev.push(seq![c])
        }
    }
}

/// The characters of a text that are not white space, in order.
pub open spec fn visible_chars(s: Seq<char>) -> Seq<char> {
    s.filter(|c: char| !is_white_space(c))
}

/// The parts joined in order, with `sep` between two neighbours.
pub open spec fn join(parts: Seq<Seq<char>>, sep: Seq<char>) -> Seq<char>
    decreases parts.len(),
{
    if parts.len() == 0 {
        seq![]
    } else if parts.len() == 1 {
        parts[0]
    } else {
        join(parts.drop_last(), sep) + sep + parts.last()
    }
}

/// Every part is non-empty.
pub open spec fn all_non_empty(parts: Seq<Seq<char>>) -> bool {
    forall|i: int| 0 <= i < parts.len() ==> #[trigger] parts[i].len() > 0
}

/// No part holds white space.
pub open spec fn no_white_space(parts: Seq<Seq<char>>) -> bool {
    forall|i: int, j: int|
        0 <= i < parts.len() && 0 <= j < parts[i].len() ==> !is_white_space(#[trigger] parts[i][j])
}

/// Appending to the last part appends to the joined text.
proof fn lemma_join_extend_last(parts: Seq<Seq<char>>, sep: Seq<char>, c: char)
    requires
        parts.len() > 0,
    ensures
        join(parts.update(parts.len() - 1, parts.last().push(c)), sep) == join(parts, sep).push(c),
{
    let q = parts.update(parts.len() - 1, parts.last().push(c));
    if parts.len() > 1 {
        assert(q.drop_last() =~= parts.drop_last());
        assert(join(q, sep) =~= join(parts, sep).push(c));
    }
}

/// Joining one more part.
proof fn lemma_join_push(parts: Seq<Seq<char>>, sep: Seq<char>, p: Seq<char>)
    ensures
        join(parts.push(p), sep) == if parts.len() == 0 { p } else { join(parts, sep) + sep + p },
{
    assert(parts.push(p).drop_last() =~= parts);
}

/// What `split_words` promises of every text: its words are non-empty, hold no white
/// space, and together hold exactly the text's other characters, in order.
pub proof fn lemma_split_words_properties(s: Seq<char>)
    ensures
        all_non_empty(split_words_spec(s)),
        no_white_space(split_words_spec(s)),
        join(split_words_spec(s), seq![]) == visible_chars(s),
        s.len() > 0 && !is_white_space(s.last()) ==> split_words_spec(s).len() > 0,
    decreases s.len(),
{
    reveal(Seq::filter);
    if s.len() > 0 {
        let t = s.drop_last();
        let c = s.last();
        let prev = split_words_spec(t);
        lemma_split_words_properties(t);
        assert(visible_chars(s) == if !is_white_space(c) { visible_chars(t).push(c) } else { visible_chars(t) });
        if is_white_space(c) {
        } else if s.len() >= 2 && !is_white_space(s[s.len() - 2]) {
            assert(t.last() == s[s.len() - 2]);
            lemma_join_extend_last(prev, seq![], c);
            let w = split_words_spec(s);
            assert forall|i: int, j: int|
                0 <= i < w.len() && 0 <= j < w[i].len() implies !is_white_space(#[trigger] w[i][j]) by {
                if i == prev.len() - 1 && j == prev.last().len() {
                } else {
                }
            }
        } else {
            lemma_join_push(prev, seq![], seq![c]);
            assert(visible_chars(t) + Seq::<char>::empty() + seq![c] =~= visible_chars(t).push(c));
            let w = split_words_spec(s);
            assert forall|i: int, j: int|
                0 <= i < w.len() && 0 <= j < w[i].len() implies !is_white_space(#[trigger] w[i][j]) by {
                if i == prev.len() {
                } else {
                }
            }
        }
    }
}

/// The views of a vector of strings.
pub open spec fn strings_view(v: Seq<String>) -> Seq<Seq<char>> {
    v.map_values(|s: String| s@)
}

/// The characters of a string slice, in order.
pub fn chars_of(s: &str) -> (v: Vec<char>)
    ensures
        v@ == s@,
{
    let mut v: Vec<char> = Vec::new();
    for c in it: s.chars()
        invariant
            v@ == it.seq().take(it.index() as int),
    {
        v.push(c);
    }
    v
}

/// What has been split of the first `i` characters of `s`, with `start` the
/// beginning of the word still open at `i`, if any.
spec fn split_progress(s: Seq<char>, i: int, done: Seq<Seq<char>>, start: Option<usize>) -> bool {
    match start {
        Some(st) => {
            &&& st < i
            &&& (st == 0 || is_white_space(s[st - 1]))
            &&& forall|k: int| st <= k < i ==> !is_white_space(#[trigger] s[k])
            &&& done.push(s.subrange(st as int, i)) == split_words_spec(s.take(i))
        },
        None => {
            &&& (i == 0 || is_white_space(s[i - 1]))
            &&& done == split_words_spec(s.take(i))
        },
    }
}

/// Splits a text into words separated by any amount of white space, as
/// `str::split_whitespace` does: no word is empty or holds white space.
pub fn split_words(text: &str) -> (words: Vec<String>)
    ensures
        strings_view(words@) == split_words_spec(text@),
{
    let chars = chars_of(text);
    let n = chars.len();
    let mut words: Vec<String> = Vec::new();
    let mut start: Option<usize> = None;
    let mut i: usize = 0;
    assert(text@.take(0) =~= Seq::<char>::empty());
    assert(strings_view(words@) =~= Seq::<Seq<char>>::empty());
    while i < n
        invariant
            n == chars@.len(),
            chars@ == text@,
            i <= n,
            split_progress(text@, i as int, strings_view(words@), start),
        decreases n - i,
    {
        let c = chars[i];
        let ghost s = text@;
        let ghost before = strings_view(words@);
        assert(s.take(i + 1).drop_last() =~= s.take(i as int));
        assert(s.take(i + 1).last() == c);
        if char_is_white_space(c) {
            match start {
                Some(st) => {
                    let w = text.substring_char(st, i);
                    words.push(String::from_str(w));
                    assert(strings_view(words@) =~= before.push(s.subrange(st as int, i as int)));
                },
                None => {},
            }
            start = None;
        } else {
            match start {
                Some(st) => {
                    assert(s.take(i + 1)[i - 1] == s[i - 1]);
                    assert(s.subrange(st as int, i + 1) =~= s.subrange(st as int, i as int).push(c));
                    assert(before.push(s.subrange(st as int, i as int)).update(before.len() as int, s.subrange(st as int, i + 1)) =~= before.push(s.subrange(st as int, i + 1)));
                },
                None => {
                    assert(i >= 1 ==> s.take(i + 1)[i - 1] == s[i - 1]);
                    assert(s.subrange(i as int, i + 1) =~= seq![c]);
                    start = Some(i);
                },
            }
        }
        i = i + 1;
    }
    assert(text@.take(n as int) =~= text@);
    match start {
        Some(st) => {
            let ghost before = strings_view(words@);
            let w = text.substring_char(st, n);
            words.push(String::from_str(w));
            assert(strings_view(words@) =~= before.push(text@.subrange(st as int, n as int)));
        },
        None => {},
    }
    words
}

} // verus!

verus! {

/// The line that a word would make if it were added to the line being built:
/// the word alone on an empty line, else the line, one space, and the word.
pub open spec fn candidate_line(current: Seq<char>, word: Seq<char>) -> Seq<char> {
    if current.len() == 0 {
        word
    } else {
        current + seq![' '] + word
    }
}

/// One step of greedy wrapping, from the finished lines and the line being built.
/// The word joins the line being built when the candidate line fits or when that
/// line is still empty; otherwise the line is finished and the word starts the next.
pub open spec fn wrap_step(
    state: (Seq<Seq<char>>, Seq<char>),
    word: Seq<char>,
    fits: bool,
) -> (Seq<Seq<char>>, Seq<char>) {
    if fits || state.1.len() == 0 {
        (state.0, candidate_line(state.1, word))
    } else {
        (state.0.push(state.1), word)
    }
}

/// The lines once every word has been placed: the line being built is kept when it
/// is not empty.
pub open spec fn wrap_finish(state: (Seq<Seq<char>>, Seq<char>)) -> Seq<Seq<char>> {
    if state.1.len() > 0 {
        state.0.push(state.1)
    } else {
        state.0
    }
}

/// The state after placing every word, `fits[i]` telling whether the candidate line
/// for `words[i]` fit the available width.
pub open spec fn wrap_all(words: Seq<Seq<char>>, fits: Seq<bool>) -> (Seq<Seq<char>>, Seq<char>)
    decreases words.len(),
{
    if words.len() == 0 {
        (seq![], seq![])
    } else {
        wrap_step(
            wrap_all(words.drop_last(), fits),
            words.last(),
            fits[words.len() - 1],
        )
    }
}

/// The lines that greedy wrapping makes of `words`.
pub open spec fn wrapped_lines(words: Seq<Seq<char>>, fits: Seq<bool>) -> Seq<Seq<char>> {
    wrap_finish(wrap_all(words, fits))
}

/// Greedy line wrapping of words, driven by answers about whether a candidate line
/// fits: ask `candidate` for the line that a word would make, measure it, then give
/// the word and the answer to `push_word`; `finish` hands out the lines.
pub struct LineWrapper {
    lines: Vec<String>,
    current: String,
}

impl View for LineWrapper {
    type V = (Seq<Seq<char>>, Seq<char>);

    closed spec fn view(&self) -> (Seq<Seq<char>>, Seq<char>) {
        (strings_view(self.lines@), self.current@)
    }
}

impl LineWrapper {
    /// A wrapper with no line yet.
    pub fn new() -> (w: Self)
        ensures
            w@ == (Seq::<Seq<char>>::empty(), Seq::<char>::empty()),
    {
        let w = LineWrapper { lines: Vec::new(), current: String::new() };
        assert(w@.0 =~= Seq::<Seq<char>>::empty());
        w
    }

    /// The line that `word` would make with the line being built.
    pub fn candidate(&self, word: &str) -> (line: String)
        ensures
            line@ == candidate_line(self@.1, word@),
    {
        if self.current.as_str().is_empty() {
            String::from_str(word)
        } else {
            proof { reveal_strlit(" "); }
            let line = self.current.clone().concat(" ");
            line.concat(word)
        }
    }

    /// Places `word`, where `fits` tells whether its candidate line fits.
    pub fn push_word(&mut self, word: &str, fits: bool)
        ensures
            final(self)@ == wrap_step(old(self)@, word@, fits),
    {
        let test_line = self.candidate(word);
        if fits || self.current.as_str().is_empty() {
            self.current = test_line;
        } else {
            let ghost before = strings_view(self.lines@);
            let mut done = String::from_str(word);
            std::mem::swap(&mut self.current, &mut done);
            self.lines.push(done);
            assert(strings_view(self.lines@) =~= before.push(old(self)@.1));
        }
    }

    /// The finished lines: those already made, then the line being built if it is
    /// not empty.
    pub fn finish(self) -> (lines: Vec<String>)
        ensures
            strings_view(lines@) == wrap_finish(self@),
    {
        let LineWrapper { lines, current } = self;
        let mut lines = lines;
        if !current.as_str().is_empty() {
            let ghost before = strings_view(lines@);
            lines.push(current);
            assert(strings_view(lines@) =~= before.push(self@.1));
        }
        lines
    }
}

} // verus!

verus! {

/// The separator between the words of a line.
pub open spec fn space() -> Seq<char> {
    seq![' ']
}

/// Adding a word to the last part of a join adds it to the joined text.
proof fn lemma_join_extend_last_part(l: Seq<Seq<char>>, c: Seq<char>, w: Seq<char>)
    ensures
        join(l.push(c + space() + w), space()) == join(l.push(c), space()) + space() + w,
{
    lemma_join_push(l, space(), c + space() + w);
    lemma_join_push(l, space(), c);
    if l.len() == 0 {
    } else {
        assert(join(l, space()) + space() + (c + space() + w) =~= join(l, space()) + space() + c
            + space() + w);
    }
}

/// The state reached after placing every word, by induction on the words.
proof fn lemma_wrap_all_state(words: Seq<Seq<char>>, fits: Seq<bool>)
    requires
        fits.len() >= words.len(),
        all_non_empty(words),
    ensures
        ({
            let (l, c) = wrap_all(words, fits);
            &&& words.len() == 0 ==> l.len() == 0 && c.len() == 0
            &&& words.len() > 0 ==> {
                &&& c.len() > 0
                &&& join(l.push(c), space()) == join(words, space())
                &&& all_non_empty(l)
                &&& l.len() < words.len()
            }
            &&& (forall|i: int| 0 <= i < words.len() ==> #[trigger] fits[i]) ==> l.len() == 0
            &&& (words.len() > 0 && forall|i: int| 0 <= i < words.len() ==> !#[trigger] fits[i])
                ==> l.push(c) == words
        }),
    decreases words.len(),
{
    if words.len() > 0 {
        let k = words.len() - 1;
        let t = words.drop_last();
        let w = words.last();
        assert(all_non_empty(t));
        lemma_wrap_all_state(t, fits);
        let (l, c) = wrap_all(t, fits);
        assert(w == words[k]);
        assert(w.len() > 0);
        lemma_join_push(t, space(), w);
        assert(t.push(w) =~= words);
        if (forall|i: int| 0 <= i < words.len() ==> #[trigger] fits[i]) {
            assert(fits[k]);
        }
        if (forall|i: int| 0 <= i < words.len() ==> !#[trigger] fits[i]) {
            assert(!fits[k]);
        }
        if fits[k] || c.len() == 0 {
            if c.len() == 0 {
                assert(t.len() == 0);
                assert(l.push(w) =~= words);
            } else {
                lemma_join_extend_last_part(l, c, w);
            }
        } else {
            let l2 = l.push(c);
            lemma_join_push(l2, space(), w);
            assert(all_non_empty(l2)) by {
                assert forall|i: int| 0 <= i < l2.len() implies #[trigger] l2[i].len() > 0 by {
                    if i < l.len() {
                        assert(l2[i] == l[i]);
                    }
                }
            }
        }
    }
}

/// Greedy wrapping neither loses, adds nor reorders a word: the lines, joined by
/// single spaces, are the words joined by single spaces. No line is empty, and
/// there are never more lines than words.
pub proof fn lemma_wrapping_keeps_words(words: Seq<Seq<char>>, fits: Seq<bool>)
    requires
        fits.len() == words.len(),
        all_non_empty(words),
    ensures
        join(wrapped_lines(words, fits), space()) == join(words, space()),
        all_non_empty(wrapped_lines(words, fits)),
        wrapped_lines(words, fits).len() <= words.len(),
{
    lemma_wrap_all_state(words, fits);
    let (l, c) = wrap_all(words, fits);
    if words.len() > 0 {
        assert(all_non_empty(l.push(c))) by {
            assert forall|i: int| 0 <= i < l.push(c).len() implies #[trigger] l.push(c)[i].len() > 0 by {
                if i < l.len() {
                    assert(l.push(c)[i] == l[i]);
                }
            }
        }
    }
}

/// When every candidate line fits, all the words end up on one line.
pub proof fn lemma_wrapping_all_fit(words: Seq<Seq<char>>, fits: Seq<bool>)
    requires
        fits.len() == words.len(),
        words.len() > 0,
        all_non_empty(words),
        forall|i: int| 0 <= i < fits.len() ==> #[trigger] fits[i],
    ensures
        wrapped_lines(words, fits) == seq![join(words, space())],
{
    lemma_wrap_all_state(words, fits);
    let (l, c) = wrap_all(words, fits);
    lemma_join_push(l, space(), c);
    assert(l.push(c) =~= seq![c]);
}

/// When no candidate line fits, every word gets a line of its own.
pub proof fn lemma_wrapping_none_fit(words: Seq<Seq<char>>, fits: Seq<bool>)
    requires
        fits.len() == words.len(),
        all_non_empty(words),
        forall|i: int| 0 <= i < fits.len() ==> !#[trigger] fits[i],
    ensures
        wrapped_lines(words, fits) == words,
{
    lemma_wrap_all_state(words, fits);
    if words.len() == 0 {
        assert(wrapped_lines(words, fits) =~= words);
    }
}

} // verus!

verus! {

/// A text without white space is all visible.
proof fn lemma_visible_chars_of_word(w: Seq<char>)
    requires
        forall|j: int| 0 <= j < w.len() ==> !is_white_space(#[trigger] w[j]),
    ensures
        visible_chars(w) == w,
    decreases w.len(),
{
    reveal(Seq::filter);
    if w.len() > 0 {
        let t = w.drop_last();
        assert forall|j: int| 0 <= j < t.len() implies !is_white_space(#[trigger] t[j]) by {
            assert(t[j] == w[j]);
        }
        lemma_visible_chars_of_word(t);
        assert(!is_white_space(w[w.len() - 1]));
        assert(t.push(w.last()) =~= w);
    }
}

/// Joining words without white space by spaces, then dropping the white space,
/// gives the words run together.
proof fn lemma_visible_chars_of_join(parts: Seq<Seq<char>>)
    requires
        no_white_space(parts),
    ensures
        visible_chars(join(parts, space())) == join(parts, seq![]),
    decreases parts.len(),
{
    reveal(Seq::filter);
    let p = |c: char| !is_white_space(c);
    if parts.len() > 0 {
        let t = parts.drop_last();
        let w = parts.last();
        assert(no_white_space(t)) by {
            assert forall|i: int, j: int| 0 <= i < t.len() && 0 <= j < t[i].len()
                implies !is_white_space(#[trigger] t[i][j]) by {
                assert(t[i] == parts[i]);
            }
        }
        assert forall|j: int| 0 <= j < w.len() implies !is_white_space(#[trigger] w[j]) by {
            assert(w == parts[parts.len() - 1]);
        }
        lemma_visible_chars_of_word(w);
        if parts.len() == 1 {
        } else {
            lemma_visible_chars_of_join(t);
            let a = join(t, space());
            Seq::filter_distributes_over_add(a + space(), w, p);
            Seq::filter_distributes_over_add(a, space(), p);
            assert(space().drop_last() =~= Seq::<char>::empty());
            assert((' ' as u32) == 0x20);
            assert(is_white_space(space().last()));
            assert(Seq::<char>::empty().filter(p) =~= Seq::<char>::empty());
            assert(space().filter(p) =~= Seq::<char>::empty());
            assert(join(t, seq![]) + Seq::<char>::empty() + w =~= join(t, seq![]) + w);
        }
    }
}

/// Splitting a text into words and wrapping them into lines keeps every visible
/// character of the text, in order: the lines, joined by spaces, show exactly the
/// text's characters other than white space.
pub proof fn lemma_layout_keeps_visible_chars(text: Seq<char>, fits: Seq<bool>)
    requires
        fits.len() == split_words_spec(text).len(),
    ensures
        visible_chars(join(wrapped_lines(split_words_spec(text), fits), space())) == visible_chars(text),
{
    let words = split_words_spec(text);
    lemma_split_words_properties(text);
    lemma_wrapping_keeps_words(words, fits);
    lemma_visible_chars_of_join(words);
}

} // verus!

verus! {

/// The indices of the words that begin a line when `m` words are wrapped: the first
/// word, and every later word whose candidate line did not fit.
pub open spec fn line_starts(fits: Seq<bool>, m: nat) -> Seq<int>
    decreases m,
{
    if m <= 1 {
        seq![0]
    } else {
        let prev = line_starts(fits, (m - 1) as nat);
        if !fits[m - 1] {
            prev.push(m - 1)
        } else {
            prev
        }
    }
}

/// The index just past the last word of line `k`.
pub open spec fn line_end(starts: Seq<int>, k: int, n: int) -> int {
    if k + 1 < starts.len() {
        starts[k + 1]
    } else {
        n
    }
}

/// The shape of the line starts of `m >= 1` words.
proof fn lemma_line_starts_shape(fits: Seq<bool>, m: nat)
    requires
        1 <= m <= fits.len(),
    ensures
        ({
            let st = line_starts(fits, m);
            &&& st.len() >= 1
            &&& st[0] == 0
            &&& forall|a: int, b: int| 0 <= a < b < st.len() ==> st[a] < st[b]
            &&& forall|k: int| 0 <= k < st.len() ==> 0 <= #[trigger] st[k] < m
            &&& forall|k: int| 0 < k < st.len() ==> !fits[#[trigger] st[k]]
            &&& forall|k: int, j: int|
                #![trigger st[k], fits[j]]
                0 <= k < st.len() && st[k] < j < line_end(st, k, m as int) ==> fits[j]
        }),
    decreases m,
{
    if m > 1 {
        lemma_line_starts_shape(fits, (m - 1) as nat);
        let prev = line_starts(fits, (m - 1) as nat);
        let st = line_starts(fits, m);
        if !fits[m - 1] {
            assert forall|k: int, j: int|
                #![trigger st[k], fits[j]]
                0 <= k < st.len() && st[k] < j < line_end(st, k, m as int) implies fits[j] by {
                if k < prev.len() {
                    assert(st[k] == prev[k]);
                    if k + 1 < prev.len() {
                        assert(st[k + 1] == prev[k + 1]);
                    }
                }
            }
        } else {
            assert forall|k: int, j: int|
                #![trigger st[k], fits[j]]
                0 <= k < st.len() && st[k] < j < line_end(st, k, m as int) implies fits[j] by {
                if j < m - 1 {
                    assert(st[k] < j < line_end(prev, k, m - 1));
                }
            }
        }
    }
}

/// The state after placing `n >= 1` words: each finished line and the line being
/// built are the words from one line start to the next, joined by spaces.
proof fn lemma_wrap_all_lines(words: Seq<Seq<char>>, fits: Seq<bool>)
    requires
        fits.len() >= words.len() >= 1,
        all_non_empty(words),
    ensures
        ({
            let (l, c) = wrap_all(words, fits);
            let st = line_starts(fits, words.len());
            &&& l.len() + 1 == st.len()
            &&& forall|k: int| 0 <= k < l.len() ==> #[trigger] l[k] == join(
                words.subrange(st[k], st[k + 1]),
                space(),
            )
            &&& c == join(words.subrange(st.last(), words.len() as int), space())
        }),
    decreases words.len(),
{
    let n = words.len();
    lemma_line_starts_shape(fits, n);
    if n == 1 {
        assert(words.subrange(0, 1) =~= seq![words[0]]);
        assert(words.drop_last() =~= Seq::<Seq<char>>::empty());
        assert(wrap_all(words.drop_last(), fits) == (Seq::<Seq<char>>::empty(), Seq::<char>::empty()));
        assert(words.last() == words[0]);
    } else {
        let t = words.drop_last();
        let w = words.last();
        assert(all_non_empty(t));
        lemma_wrap_all_lines(t, fits);
        lemma_wrap_all_state(t, fits);
        lemma_line_starts_shape(fits, (n - 1) as nat);
        let (l, c) = wrap_all(t, fits);
        let prev = line_starts(fits, (n - 1) as nat);
        let st = line_starts(fits, n);
        assert forall|a: int, b: int| 0 <= a <= b <= n - 1 implies #[trigger] words.subrange(a, b)
            == t.subrange(a, b) by {
            assert(words.subrange(a, b) =~= t.subrange(a, b));
        }
        if fits[n - 1] {
            let s0 = prev.last();
            assert(words.subrange(s0, n as int).drop_last() =~= t.subrange(s0, n - 1));
            assert(words.subrange(s0, n as int).last() == w);
            lemma_join_push(t.subrange(s0, n - 1), space(), w);
            assert(words.subrange(s0, n as int) =~= t.subrange(s0, n - 1).push(w));
            assert(wrap_all(words, fits).1 == c + space() + w);
            assert forall|k: int| 0 <= k < l.len() implies #[trigger] l[k] == join(
                words.subrange(st[k], st[k + 1]),
                space(),
            ) by {
                assert(words.subrange(st[k], st[k + 1]) == t.subrange(prev[k], prev[k + 1]));
            }
        } else {
            let l2 = l.push(c);
            assert(words.subrange(n - 1, n as int) =~= seq![w]);
            assert(wrap_all(words, fits).1 == w);
            assert(wrap_all(words, fits).1 == join(words.subrange(st.last(), n as int), space()));
            assert forall|k: int| 0 <= k < l2.len() implies #[trigger] l2[k] == join(
                words.subrange(st[k], st[k + 1]),
                space(),
            ) by {
                if k < l.len() {
                    assert(l2[k] == l[k]);
                    assert(words.subrange(st[k], st[k + 1]) == t.subrange(prev[k], prev[k + 1]));
                } else {
                    assert(words.subrange(st[k], st[k + 1]) == t.subrange(prev.last(), n - 1));
                }
            }
        }
    }
}

/// Greedy wrapping cuts the words, in order, into consecutive runs, one per line:
/// line `k` holds the words from `starts[k]` up to the next start, joined by single
/// spaces. A line starts at the first word and at exactly those later words whose
/// candidate line did not fit; every word after the first on a line was reported to
/// fit.
pub proof fn lemma_wrapping_cuts_at_misfits(words: Seq<Seq<char>>, fits: Seq<bool>)
    requires
        fits.len() == words.len(),
        words.len() > 0,
        all_non_empty(words),
    ensures
        ({
            let lines = wrapped_lines(words, fits);
            let st = line_starts(fits, words.len());
            let n = words.len() as int;
            &&& lines.len() == st.len()
            &&& st[0] == 0
            &&& forall|a: int, b: int| 0 <= a < b < st.len() ==> st[a] < st[b]
            &&& forall|k: int| 0 <= k < st.len() ==> 0 <= #[trigger] st[k] < n
            &&& forall|k: int| 0 <= k < lines.len() ==> #[trigger] lines[k] == join(
                words.subrange(st[k], line_end(st, k, n)),
                space(),
            )
            &&& forall|k: int| 0 < k < st.len() ==> !fits[#[trigger] st[k]]
            &&& forall|k: int, j: int|
                #![trigger st[k], fits[j]]
                0 <= k < st.len() && st[k] < j < line_end(st, k, n) ==> fits[j]
        }),
{
    lemma_line_starts_shape(fits, words.len());
    lemma_wrap_all_lines(words, fits);
    lemma_wrap_all_state(words, fits);
    let (l, c) = wrap_all(words, fits);
    let lines = wrapped_lines(words, fits);
    let st = line_starts(fits, words.len());
    assert(lines == l.push(c));
    assert forall|k: int| 0 <= k < lines.len() implies #[trigger] lines[k] == join(
        words.subrange(st[k], line_end(st, k, words.len() as int)),
        space(),
    ) by {
        if k < l.len() {
            assert(lines[k] == l[k]);
        }
    }
}

} // verus!

verus! {

/// Word `i` occurs in `s` at `starts[i]` as a run of characters that white space, or
/// an end of the text, bounds on both sides.
pub open spec fn bounded_occurrence(s: Seq<char>, words: Seq<Seq<char>>, starts: Seq<int>, i: int) -> bool {
    let a = starts[i];
    let b = starts[i] + words[i].len();
    &&& 0 <= a
    &&& b <= s.len()
    &&& s.subrange(a, b) == words[i]
    &&& (a == 0 || is_white_space(s[a - 1]))
    &&& (b == s.len() || is_white_space(s[b]))
}

/// `words` are maximal runs of non-white-space characters of `s`, found at `starts`
/// in order and apart, and every non-white-space character of `s` lies in one of them.
pub open spec fn maximal_runs_at(s: Seq<char>, words: Seq<Seq<char>>, starts: Seq<int>) -> bool {
    &&& starts.len() == words.len()
    &&& forall|i: int| 0 <= i < words.len() ==> #[trigger] bounded_occurrence(s, words, starts, i)
    &&& forall|i: int, j: int|
        #![trigger starts[i], starts[j]]
        0 <= i < j < words.len() ==> starts[i] + words[i].len() < starts[j]
    &&& forall|k: int|
        0 <= k < s.len() && !is_white_space(#[trigger] s[k]) ==> exists|i: int|
            0 <= i < words.len() && #[trigger] starts[i] <= k < starts[i] + words[i].len()
}

/// Where the words of `split_words_spec(s)` start in `s`.
spec fn split_starts(s: Seq<char>) -> Seq<int>
    decreases s.len(),
{
    if s.len() == 0 {
        seq![]
    } else {
        let prev = split_starts(s.drop_last());
        let c = s.last();
        if is_white_space(c) {
            prev
        } else if s.len() >= 2 && !is_white_space(s[s.len() - 2]) {
            prev
        } else {
            prev.push(s.len() - 1)
        }
    }
}

proof fn lemma_split_starts(s: Seq<char>)
    ensures
        maximal_runs_at(s, split_words_spec(s), split_starts(s)),
        s.len() > 0 && !is_white_space(s.last()) ==> split_words_spec(s).len() > 0
            && split_starts(s).last() + split_words_spec(s).last().len() == s.len(),
    decreases s.len(),
{
    let w2 = split_words_spec(s);
    let st2 = split_starts(s);
    if s.len() == 0 {
        assert(w2.len() == 0);
    } else {
        let t = s.drop_last();
        let c = s.last();
        let w = split_words_spec(t);
        let st = split_starts(t);
        lemma_split_starts(t);
        lemma_split_words_properties(t);
        let n = t.len() as int;
        assert forall|a: int, b: int| 0 <= a <= b <= n implies #[trigger] s.subrange(a, b) == t.subrange(a, b) by {
            assert(s.subrange(a, b) =~= t.subrange(a, b));
        }
        assert forall|k: int| 0 <= k < n implies #[trigger] s[k] == t[k] by {}
        assert(bounded_occurrence(t, w, st, 0) ==> true);
        if is_white_space(c) {
            assert forall|i: int| 0 <= i < w2.len() implies #[trigger] bounded_occurrence(s, w2, st2, i) by {
                assert(bounded_occurrence(t, w, st, i));
            }
            assert forall|k: int|
                0 <= k < s.len() && !is_white_space(#[trigger] s[k]) implies exists|i: int|
                0 <= i < w2.len() && #[trigger] st2[i] <= k < st2[i] + w2[i].len() by {
                assert(k < n);
                assert(!is_white_space(t[k]));
            }
        } else if s.len() >= 2 && !is_white_space(s[s.len() - 2]) {
            assert(t.last() == s[s.len() - 2]);
            let last = w.len() - 1;
            assert(st2 == st);
            assert forall|i: int| 0 <= i < w2.len() implies #[trigger] bounded_occurrence(s, w2, st2, i) by {
                assert(bounded_occurrence(t, w, st, i));
                if i == last {
                    assert(s.subrange(st[i], n + 1) =~= t.subrange(st[i], n).push(c));
                } else {
                    assert(st[i] + w[i].len() < st[last]) by {
                        assert(0 <= i < last);
                    }
                    assert(bounded_occurrence(t, w, st, last));
                }
            }
            assert forall|k: int|
                0 <= k < s.len() && !is_white_space(#[trigger] s[k]) implies exists|i: int|
                0 <= i < w2.len() && #[trigger] st2[i] <= k < st2[i] + w2[i].len() by {
                if k < n {
                    assert(!is_white_space(t[k]));
                    let i = choose|i: int| 0 <= i < w.len() && #[trigger] st[i] <= k < st[i] + w[i].len();
                    assert(st2[i] <= k < st2[i] + w2[i].len());
                } else {
                    assert(bounded_occurrence(t, w, st, last));
                    assert(st2[last] <= k < st2[last] + w2[last].len());
                }
            }
            assert forall|i: int, j: int|
                #![trigger st2[i], st2[j]]
                0 <= i < j < w2.len() implies st2[i] + w2[i].len() < st2[j] by {
                assert(st[i] + w[i].len() < st[j]);
            }
        } else {
            assert(st2 == st.push(n));
            assert(w2 == w.push(seq![c]));
            assert forall|i: int| 0 <= i < w.len() implies st[i] + w[i].len() < n by {
                assert(bounded_occurrence(t, w, st, i));
                if st[i] + w[i].len() == n {
                    assert(w[i].len() > 0);
                    assert(t.subrange(st[i], n)[w[i].len() - 1] == t[n - 1]);
                    assert(!is_white_space(w[i][w[i].len() - 1]));
                }
            }
            assert forall|i: int| 0 <= i < w2.len() implies #[trigger] bounded_occurrence(s, w2, st2, i) by {
                if i < w.len() {
                    assert(bounded_occurrence(t, w, st, i));
                    assert(st2[i] == st[i]);
                    assert(w2[i] == w[i]);
                } else {
                    assert(s.subrange(n, n + 1) =~= seq![c]);
                    if n > 0 {
                        assert(s[n - 1] == s[s.len() - 2]);
                    }
                }
            }
            assert forall|k: int|
                0 <= k < s.len() && !is_white_space(#[trigger] s[k]) implies exists|i: int|
                0 <= i < w2.len() && #[trigger] st2[i] <= k < st2[i] + w2[i].len() by {
                if k < n {
                    assert(!is_white_space(t[k]));
                    let i = choose|i: int| 0 <= i < w.len() && #[trigger] st[i] <= k < st[i] + w[i].len();
                    assert(st2[i] == st[i] && w2[i] == w[i]);
                    assert(st2[i] <= k < st2[i] + w2[i].len());
                } else {
                    assert(st2[w.len() as int] <= k < st2[w.len() as int] + w2[w.len() as int].len());
                }
            }
            assert forall|i: int, j: int|
                #![trigger st2[i], st2[j]]
                0 <= i < j < w2.len() implies st2[i] + w2[i].len() < st2[j] by {
                if j < w.len() {
                    assert(st[i] + w[i].len() < st[j]);
                } else {
                    assert(st[i] + w[i].len() < n);
                }
            }
        }
    }
}

/// The words that `split_words` gives are exactly the maximal runs of
/// non-white-space characters of the text, in order: each occurs in the text with
/// white space or a text end just before and just after it, the occurrences are in
/// order and apart, and every non-white-space character lies in one of them (so two
/// non-white-space neighbours always lie in the same word).
pub proof fn lemma_split_words_are_maximal_runs(s: Seq<char>)
    ensures
        exists|starts: Seq<int>| maximal_runs_at(s, split_words_spec(s), starts),
{
    lemma_split_starts(s);
}

} // verus!
