//! Word wrapping and text rendering.
use vstd::prelude::*;

verus! {

/// Whether `c` has the Unicode `White_Space` property (as `char::is_whitespace`).
pub open spec fn is_space(c: char) -> bool {
    let v = c as u32;
    (0x09 <= v && v <= 0x0d) || v == 0x20 || v == 0x85 || v == 0xa0 || v == 0x1680 || (0x2000 <= v && v
        <= 0x200a) || v == 0x2028 || v == 0x2029 || v == 0x202f || v == 0x205f || v == 0x3000
}

/// Whether `c` has the Unicode `White_Space` property.
pub fn is_whitespace(c: char) -> (b: bool)
    ensures
        b == is_space(c),
{
    let v = c as u32;
    (0x09 <= v && v <= 0x0d) || v == 0x20 || v == 0x85 || v == 0xa0 || v == 0x1680 || (0x2000 <= v && v
        <= 0x200a) || v == 0x2028 || v == 0x2029 || v == 0x202f || v == 0x205f || v == 0x3000
}

/// Reading `s` left to right: the words completed so far and the word being read.
pub open spec fn word_scan(s: Seq<char>) -> (Seq<Seq<char>>, Seq<char>)
    decreases s.len(),
{
    if s.len() == 0 {
        (Seq::empty(), Seq::empty())
    } else {
        let (done, cur) = word_scan(s.drop_last());
        let c = s.last();
        if is_space(c) {
            if cur.len() > 0 {
                (done.push(cur), Seq::empty())
            } else {
                (done, cur)
            }
        } else {
            (done, cur.push(c))
        }
    }
}

/// The words of `s`: its maximal runs of characters that are not whitespace.
pub open spec fn words(s: Seq<char>) -> Seq<Seq<char>> {
    let (done, cur) = word_scan(s);
    if cur.len() > 0 {
        done.push(cur)
    } else {
        done
    }
}

/// Splitting an over-long `word` into chunks of `max` characters: the full
/// chunks emitted and the last chunk.
pub open spec fn chunk_scan(word: Seq<char>, max: int) -> (Seq<Seq<char>>, Seq<char>)
    decreases word.len(),
{
    if word.len() == 0 {
        (Seq::empty(), Seq::empty())
    } else {
        let (full, chunk) = chunk_scan(word.drop_last(), max);
        let c = word.last();
        if chunk.len() >= max {
            (full.push(chunk), seq![c])
        } else {
            (full, chunk.push(c))
        }
    }
}

/// Starting a line with `word` after the closed `lines`: a word longer than a
/// line is cut into chunks of `max` characters, the last of which becomes the
/// line being filled.
pub open spec fn start_line(lines: Seq<Seq<char>>, word: Seq<char>, max: int) -> (Seq<Seq<char>>, Seq<char>) {
    if word.len() > max {
        let (full, chunk) = chunk_scan(word, max);
        (lines + full, chunk)
    } else {
        (lines, word)
    }
}

/// Adding `word` to the wrapped lines and the line being filled: a word that
/// fits (after a space) joins the line; otherwise the line is closed and the
/// word starts the next one.
pub open spec fn wrap_step(lines: Seq<Seq<char>>, cur: Seq<char>, word: Seq<char>, max: int) -> (Seq<Seq<char>>, Seq<char>) {
    if cur.len() == 0 {
        start_line(lines, word, max)
    } else if cur.len() + 1 + word.len() <= max {
        (lines, cur.push(' ') + word)
    } else {
        start_line(lines.push(cur), word, max)
    }
}

/// Wrapping the words `ws`: the closed lines and the line being filled.
pub open spec fn wrap_words(ws: Seq<Seq<char>>, max: int) -> (Seq<Seq<char>>, Seq<char>)
    decreases ws.len(),
{
    if ws.len() == 0 {
        (Seq::empty(), Seq::empty())
    } else {
        let (lines, cur) = wrap_words(ws.drop_last(), max);
        wrap_step(lines, cur, ws.last(), max)
    }
}

/// The lines of `text` wrapped to at most `max` characters where word
/// boundaries allow.
pub open spec fn wrapped(text: Seq<char>, max: int) -> Seq<Seq<char>> {
    let (lines, cur) = wrap_words(words(text), max);
    if cur.len() > 0 {
        lines.push(cur)
    } else {
        lines
    }
}

/// The characters of lines, as plain sequences.
pub open spec fn lines_view(lines: Seq<Vec<char>>) -> Seq<Seq<char>> {
    lines.map_values(|l: Vec<char>| l@)
}

/// The characters of `text`, one by one.
pub fn chars_of(text: &str) -> (cs: Vec<char>)
    ensures
        cs@ == text@,
{
    let mut cs: Vec<char> = Vec::new();
    for c in it: text.chars()
        invariant
            cs@ == it.seq().take(it.index()),
    {
        cs.push(c);
    }
    cs
}

/// Starts a line with the word `chars[start..end]` after the closed `lines`;
/// the line being filled, `current`, is empty.
fn start_word(
    lines: &mut Vec<Vec<char>>,
    current: &mut Vec<char>,
    chars: &Vec<char>,
    start: usize,
    end: usize,
    max_line_len: usize,
)
    requires
        start <= end <= chars@.len(),
        old(current)@.len() == 0,
    ensures
        lines_view(final(lines)@) == start_line(
            lines_view(old(lines)@),
            chars@.subrange(start as int, end as int),
            max_line_len as int,
        ).0,
        final(current)@ == start_line(
            lines_view(old(lines)@),
            chars@.subrange(start as int, end as int),
            max_line_len as int,
        ).1,
{
    let ghost word = chars@.subrange(start as int, end as int);
    let word_len = end - start;
    if word_len > max_line_len {
        let ghost lines0 = lines_view(lines@);
        let mut chunk: Vec<char> = Vec::new();
        let mut j = start;
        while j < end
            invariant
                start <= j <= end <= chars@.len(),
                word == chars@.subrange(start as int, end as int),
                (lines_view(lines@), chunk@) == {
                    let (full, ch) = chunk_scan(word.take(j - start), max_line_len as int);
                    (lines0 + full, ch)
                },
            decreases end - j,
        {
            assert(word.take(j - start + 1).drop_last() =~= word.take(j - start));
            assert(word.take(j - start + 1).last() == chars@[j as int]);
            if chunk.len() >= max_line_len {
                let mut full: Vec<char> = Vec::new();
                std::mem::swap(&mut chunk, &mut full);
                lines.push(full);
            }
            chunk.push(chars[j]);
            j = j + 1;
            proof {
                let (f1, c1) = chunk_scan(word.take(j - start - 1), max_line_len as int);
                assert(lines_view(lines@) =~= lines0 + chunk_scan(word.take(j - start), max_line_len as int).0) by {
                    assert(lines0 + f1.push(c1) =~= (lines0 + f1).push(c1));
                }
            }
        }
        assert(word.take(end - start) =~= word);
        *current = chunk;
    } else {
        let mut j = start;
        while j < end
            invariant
                start <= j <= end <= chars@.len(),
                current@ == chars@.subrange(start as int, j as int),
                lines@ == old(lines)@,
            decreases end - j,
        {
            current.push(chars[j]);
            j = j + 1;
            assert(current@ =~= chars@.subrange(start as int, j as int));
        }
    }
}

/// Adds the word `chars[start..end]` to the wrapped `lines` and the line
/// being filled, `current`.
fn add_word(
    lines: &mut Vec<Vec<char>>,
    current: &mut Vec<char>,
    chars: &Vec<char>,
    start: usize,
    end: usize,
    max_line_len: usize,
)
    requires
        start <= end <= chars@.len(),
    ensures
        lines_view(final(lines)@) == wrap_step(
            lines_view(old(lines)@),
            old(current)@,
            chars@.subrange(start as int, end as int),
            max_line_len as int,
        ).0,
        final(current)@ == wrap_step(
            lines_view(old(lines)@),
            old(current)@,
            chars@.subrange(start as int, end as int),
            max_line_len as int,
        ).1,
{
    let word_len = end - start;
    let line_len = current.len();
    if line_len == 0 {
        start_word(lines, current, chars, start, end, max_line_len);
    } else if line_len < max_line_len && word_len <= max_line_len - line_len - 1 {
        current.push(' ');
        let ghost with_space = current@;
        let mut j = start;
        while j < end
            invariant
                start <= j <= end <= chars@.len(),
                current@ == with_space + chars@.subrange(start as int, j as int),
                lines@ == old(lines)@,
            decreases end - j,
        {
            current.push(chars[j]);
            j = j + 1;
            assert(current@ =~= with_space + chars@.subrange(start as int, j as int));
        }
    } else {
        let mut done: Vec<char> = Vec::new();
        std::mem::swap(current, &mut done);
        lines.push(done);
        assert(lines_view(lines@) =~= lines_view(old(lines)@).push(old(current)@));
        start_word(lines, current, chars, start, end, max_line_len);
    }
}

/// The characters of strings, as plain sequences.
pub open spec fn strings_view(lines: Seq<String>) -> Seq<Seq<char>> {
    lines.map_values(|l: String| l@)
}

/// Calls `String::push`, which appends `c` to the end of `s`.
#[verifier::external_body]
fn push_char(s: &mut String, c: char)
    ensures
        final(s)@ == old(s)@.push(c),
{
    s.push(c);
}

/// The string made of the characters `cs`.
fn string_of(cs: &Vec<char>) -> (s: String)
    ensures
        s@ == cs@,
{
    let mut s = String::new();
    let mut i: usize = 0;
    while i < cs.len()
        invariant
            i <= cs.len(),
            s@ == cs@.take(i as int),
        decreases cs.len() - i,
    {
        push_char(&mut s, cs[i]);
        i = i + 1;
        assert(s@ =~= cs@.take(i as int));
    }
    assert(cs@.take(i as int) =~= cs@);
    s
}

/// Wraps `text` into lines of at most `max_line_len` characters, breaking at
/// whitespace where possible. Words are separated by one space; a word longer
/// than a line starts a new line and is cut into pieces of `max_line_len`
/// characters.
pub fn wrap_text(text: &str, max_line_len: usize) -> (lines: Vec<String>)
    ensures
        strings_view(lines@) == wrapped(text@, max_line_len as int),
        max_line_len >= 1 ==> forall|i: int|
            0 <= i < lines@.len() ==> 0 < #[trigger] lines@[i]@.len() <= max_line_len,
{
    let chars = chars_of(text);
    let ghost max = max_line_len as int;
    let mut lines: Vec<Vec<char>> = Vec::new();
    let mut current: Vec<char> = Vec::new();
    let mut word_start: usize = 0;
    let mut i: usize = 0;
    while i < chars.len()
        invariant
            max == max_line_len as int,
            chars@ == text@,
            word_start <= i <= chars.len(),
            word_scan(chars@.take(i as int)).1 == chars@.subrange(word_start as int, i as int),
            (lines_view(lines@), current@) == wrap_words(word_scan(chars@.take(i as int)).0, max),
        decreases chars.len() - i,
    {
        assert(chars@.take(i + 1).drop_last() =~= chars@.take(i as int));
        assert(chars@.take(i + 1).last() == chars@[i as int]);
        if is_whitespace(chars[i]) {
            if word_start < i {
                let ghost done = word_scan(chars@.take(i as int)).0;
                let ghost word = chars@.subrange(word_start as int, i as int);
                let ghost l0 = lines_view(lines@);
                let ghost c0 = current@;
                assert((l0, c0) == wrap_words(done, max));
                add_word(&mut lines, &mut current, &chars, word_start, i, max_line_len);
                assert(lines_view(lines@) == wrap_step(l0, c0, word, max).0);
                assert(current@ == wrap_step(l0, c0, word, max).1);
                assert(done.push(word).drop_last() =~= done);
                assert(word_scan(chars@.take(i + 1)).0 == done.push(word));
                assert(wrap_words(done.push(word), max) == wrap_step(wrap_words(done, max).0, wrap_words(done, max).1, word, max));
                assert((lines_view(lines@), current@) == wrap_words(word_scan(chars@.take(i + 1)).0, max));
            } else {
                assert(word_scan(chars@.take(i + 1)).0 == word_scan(chars@.take(i as int)).0);
            }
            word_start = i + 1;
            assert(chars@.subrange(word_start as int, i + 1) =~= Seq::<char>::empty());
        } else {
            assert(chars@.subrange(word_start as int, i + 1) =~= chars@.subrange(word_start as int, i as int).push(chars@[i as int]));
            assert(word_scan(chars@.take(i + 1)).0 == word_scan(chars@.take(i as int)).0);
        }
        i = i + 1;
    }
    assert(chars@.take(i as int) =~= text@);
    if word_start < i {
        let ghost done = word_scan(chars@.take(i as int)).0;
        let ghost word = chars@.subrange(word_start as int, i as int);
        add_word(&mut lines, &mut current, &chars, word_start, i, max_line_len);
        assert(done.push(word).drop_last() =~= done);
    }
    if current.len() > 0 {
        lines.push(current);
    }
    let ghost target = wrapped(text@, max);
    assert(lines_view(lines@) =~= target);
    let mut out: Vec<String> = Vec::new();
    let mut k: usize = 0;
    while k < lines.len()
        invariant
            k <= lines.len(),
            lines_view(lines@) == target,
            out@.len() == k,
            forall|j: int| 0 <= j < k ==> #[trigger] out@[j]@ == target[j],
        decreases lines.len() - k,
    {
        out.push(string_of(&lines[k]));
        k = k + 1;
    }
    assert(strings_view(out@) =~= target);
    proof {
        if max_line_len >= 1 {
            crate::text_laws::lemma_wrapped_lines_fit(text@, max);
            assert forall|i: int| 0 <= i < out@.len() implies 0 < #[trigger] out@[i]@.len() <= max_line_len by {
                assert(out@[i]@ == target[i]);
            }
        }
    }
    out
}

} // verus!
