//! Laws of word wrapping.
use vstd::prelude::*;
use crate::text::{chunk_scan, is_space, start_line, word_scan, words, wrap_step, wrap_words, wrapped};

verus! {

/// Cutting a word into chunks of `max` characters: every full chunk has
/// exactly `max` characters, the last one between 1 and `max`.
proof fn lemma_chunk_sizes(word: Seq<char>, max: int)
    requires
        max >= 1,
    ensures
        forall|i: int| 0 <= i < chunk_scan(word, max).0.len() ==> #[trigger] chunk_scan(word, max).0[i].len() == max,
        chunk_scan(word, max).1.len() <= max,
        word.len() > 0 ==> chunk_scan(word, max).1.len() >= 1,
    decreases word.len(),
{
    if word.len() > 0 {
        lemma_chunk_sizes(word.drop_last(), max);
    }
}

/// Whether every line of `lines` is non-empty and at most `max` characters long.
pub open spec fn lines_fit(lines: Seq<Seq<char>>, max: int) -> bool {
    forall|i: int| 0 <= i < lines.len() ==> 0 < #[trigger] lines[i].len() <= max
}

/// Starting a line with a non-empty word keeps the closed lines fitting and
/// gives a non-empty line being filled that fits.
proof fn lemma_start_line_fits(lines: Seq<Seq<char>>, w: Seq<char>, max: int)
    requires
        max >= 1,
        w.len() > 0,
        lines_fit(lines, max),
    ensures
        lines_fit(start_line(lines, w, max).0, max),
        0 < start_line(lines, w, max).1.len() <= max,
{
    lemma_chunk_sizes(w, max);
    if w.len() > max {
        let (full, chunk) = chunk_scan(w, max);
        let out = lines + full;
        assert forall|i: int| 0 <= i < out.len() implies 0 < #[trigger] out[i].len() <= max by {
            if i < lines.len() {
                assert(out[i] == lines[i]);
            } else {
                assert(out[i] == full[i - lines.len()]);
            }
        }
    }
}

/// Wrapping non-empty words keeps every closed line non-empty and within the
/// width, and the line being filled within the width.
proof fn lemma_wrap_words_fit(ws: Seq<Seq<char>>, max: int)
    requires
        max >= 1,
        forall|i: int| 0 <= i < ws.len() ==> #[trigger] ws[i].len() > 0,
    ensures
        lines_fit(wrap_words(ws, max).0, max),
        wrap_words(ws, max).1.len() <= max,
    decreases ws.len(),
{
    if ws.len() > 0 {
        let prev = ws.drop_last();
        let w = ws.last();
        assert forall|i: int| 0 <= i < prev.len() implies #[trigger] prev[i].len() > 0 by {
            assert(prev[i] == ws[i]);
        }
        lemma_wrap_words_fit(prev, max);
        let (lines, cur) = wrap_words(prev, max);
        assert(w.len() > 0) by {
            assert(ws[ws.len() - 1] == w);
        }
        assert(wrap_words(ws, max) == wrap_step(lines, cur, w, max));
        if cur.len() == 0 {
            lemma_start_line_fits(lines, w, max);
        } else if cur.len() + 1 + w.len() <= max {
        } else {
            let closed = lines.push(cur);
            assert forall|i: int| 0 <= i < closed.len() implies 0 < #[trigger] closed[i].len() <= max by {
                if i < lines.len() {
                    assert(closed[i] == lines[i]);
                }
            }
            lemma_start_line_fits(closed, w, max);
        }
    }
}

/// The words of a text are never empty.
proof fn lemma_words_nonempty(s: Seq<char>)
    ensures
        forall|i: int| 0 <= i < words(s).len() ==> #[trigger] words(s)[i].len() > 0,
        forall|i: int| 0 <= i < word_scan(s).0.len() ==> #[trigger] word_scan(s).0[i].len() > 0,
    decreases s.len(),
{
    let (done, cur) = word_scan(s);
    if s.len() > 0 {
        lemma_words_nonempty(s.drop_last());
        let (d0, c0) = word_scan(s.drop_last());
        assert forall|i: int| 0 <= i < done.len() implies #[trigger] done[i].len() > 0 by {
            if i < d0.len() {
                if is_space(s.last()) && c0.len() > 0 {
                    assert(done[i] == d0.push(c0)[i]);
                }
            }
        }
    }
    assert forall|i: int| 0 <= i < words(s).len() implies #[trigger] words(s)[i].len() > 0 by {
        if i < done.len() {
            if cur.len() > 0 {
                assert(words(s)[i] == done.push(cur)[i]);
            }
        }
    }
}

/// Wrapped lines are never empty, and each one is at most `max` characters
/// long.
pub proof fn lemma_wrapped_lines_fit(text: Seq<char>, max: int)
    requires
        max >= 1,
    ensures
        forall|i: int| 0 <= i < wrapped(text, max).len() ==> 0 < #[trigger] wrapped(text, max)[i].len() <= max,
{
    lemma_words_nonempty(text);
    lemma_wrap_words_fit(words(text), max);
    let (lines, cur) = wrap_words(words(text), max);
    let out = wrapped(text, max);
    assert forall|i: int| 0 <= i < out.len() implies 0 < #[trigger] out[i].len() <= max by {
        if i < lines.len() {
            assert(out[i] == lines[i]);
        }
    }
}

/// The lines laid end to end.
pub open spec fn concat(lines: Seq<Seq<char>>) -> Seq<char>
    decreases lines.len(),
{
    if lines.len() == 0 {
        Seq::empty()
    } else {
        concat(lines.drop_last()) + lines.last()
    }
}

/// `s` without its space characters.
pub open spec fn strip_spaces(s: Seq<char>) -> Seq<char>
    decreases s.len(),
{
    if s.len() == 0 {
        s
    } else if s.last() == ' ' {
        strip_spaces(s.drop_last())
    } else {
        strip_spaces(s.drop_last()).push(s.last())
    }
}

proof fn lemma_strip_add(a: Seq<char>, b: Seq<char>)
    ensures
        strip_spaces(a + b) == strip_spaces(a) + strip_spaces(b),
    decreases b.len(),
{
    if b.len() == 0 {
        assert(a + b =~= a);
        assert(strip_spaces(a) + strip_spaces(b) =~= strip_spaces(a));
    } else {
        assert((a + b).drop_last() =~= a + b.drop_last());
        assert((a + b).last() == b.last());
        lemma_strip_add(a, b.drop_last());
        if b.last() != ' ' {
            assert(strip_spaces(a) + strip_spaces(b.drop_last()).push(b.last()) =~= (strip_spaces(a) + strip_spaces(
                b.drop_last(),
            )).push(b.last()));
        }
    }
}

/// A text without whitespace loses nothing to stripping.
proof fn lemma_strip_no_space(s: Seq<char>)
    requires
        forall|i: int| 0 <= i < s.len() ==> !is_space(#[trigger] s[i]),
    ensures
        strip_spaces(s) == s,
    decreases s.len(),
{
    if s.len() > 0 {
        assert(!is_space(s[s.len() - 1]));
        assert forall|i: int| 0 <= i < s.drop_last().len() implies !is_space(#[trigger] s.drop_last()[i]) by {
            assert(s.drop_last()[i] == s[i]);
        }
        lemma_strip_no_space(s.drop_last());
        assert(s.drop_last().push(s.last()) =~= s);
    }
}

proof fn lemma_concat_add(a: Seq<Seq<char>>, b: Seq<Seq<char>>)
    ensures
        concat(a + b) == concat(a) + concat(b),
    decreases b.len(),
{
    if b.len() == 0 {
        assert(a + b =~= a);
        assert(concat(a) + concat(b) =~= concat(a));
    } else {
        assert((a + b).drop_last() =~= a + b.drop_last());
        assert((a + b).last() == b.last());
        lemma_concat_add(a, b.drop_last());
        assert(concat(a) + (concat(b.drop_last()) + b.last()) =~= (concat(a) + concat(b.drop_last())) + b.last());
    }
}

/// The chunks of a word, laid end to end, are the word.
proof fn lemma_chunks_concat(word: Seq<char>, max: int)
    ensures
        concat(chunk_scan(word, max).0) + chunk_scan(word, max).1 == word,
    decreases word.len(),
{
    if word.len() > 0 {
        lemma_chunks_concat(word.drop_last(), max);
        let (full, chunk) = chunk_scan(word.drop_last(), max);
        let c = word.last();
        if chunk.len() >= max {
            assert(full.push(chunk).drop_last() =~= full);
            assert(concat(full) + chunk + seq![c] =~= word);
        } else {
            assert(word.drop_last().push(c) =~= word);
            assert(concat(full) + chunk.push(c) =~= (concat(full) + chunk).push(c));
        }
    }
}

/// Starting a line with `w` lays the word out after the closed lines.
proof fn lemma_start_line_concat(lines: Seq<Seq<char>>, w: Seq<char>, max: int)
    ensures
        concat(start_line(lines, w, max).0) + start_line(lines, w, max).1 == concat(lines) + w,
{
    if w.len() > max {
        let (full, chunk) = chunk_scan(w, max);
        lemma_chunks_concat(w, max);
        lemma_concat_add(lines, full);
        assert(concat(lines) + concat(full) + chunk =~= concat(lines) + (concat(full) + chunk));
    }
}

/// Words contain no whitespace.
proof fn lemma_words_no_space(s: Seq<char>)
    ensures
        forall|k: int, i: int| 0 <= k < words(s).len() && 0 <= i < words(s)[k].len() ==> !is_space(#[trigger] words(s)[k][i]),
        forall|k: int, i: int| 0 <= k < word_scan(s).0.len() && 0 <= i < word_scan(s).0[k].len() ==> !is_space(#[trigger] word_scan(s).0[k][i]),
        forall|i: int| 0 <= i < word_scan(s).1.len() ==> !is_space(#[trigger] word_scan(s).1[i]),
    decreases s.len(),
{
    let (done, cur) = word_scan(s);
    if s.len() > 0 {
        lemma_words_no_space(s.drop_last());
        let (d0, c0) = word_scan(s.drop_last());
        let c = s.last();
        if is_space(c) {
            if c0.len() > 0 {
                assert forall|k: int, i: int| 0 <= k < done.len() && 0 <= i < done[k].len() implies !is_space(#[trigger] done[k][i]) by {
                    if k < d0.len() {
                        assert(done[k] == d0[k]);
                    } else {
                        assert(done[k] == c0);
                    }
                }
            }
        } else {
            assert forall|i: int| 0 <= i < cur.len() implies !is_space(#[trigger] cur[i]) by {
                if i < c0.len() {
                    assert(cur[i] == c0[i]);
                }
            }
        }
    }
    assert forall|k: int, i: int| 0 <= k < words(s).len() && 0 <= i < words(s)[k].len() implies !is_space(#[trigger] words(s)[k][i]) by {
        if cur.len() > 0 && k == done.len() {
            assert(words(s)[k] == cur);
        } else {
            assert(words(s)[k] == done[k]);
        }
    }
}

/// Wrapping only inserts spaces between words: stripped of spaces, the lines
/// and the line being filled spell out the words.
proof fn lemma_wrap_words_keep_text(ws: Seq<Seq<char>>, max: int)
    requires
        forall|k: int, i: int| 0 <= k < ws.len() && 0 <= i < ws[k].len() ==> !is_space(#[trigger] ws[k][i]),
    ensures
        strip_spaces(concat(wrap_words(ws, max).0) + wrap_words(ws, max).1) == concat(ws),
    decreases ws.len(),
{
    if ws.len() > 0 {
        let prev = ws.drop_last();
        let w = ws.last();
        assert forall|k: int, i: int| 0 <= k < prev.len() && 0 <= i < prev[k].len() implies !is_space(#[trigger] prev[k][i]) by {
            assert(prev[k] == ws[k]);
        }
        lemma_wrap_words_keep_text(prev, max);
        assert forall|i: int| 0 <= i < w.len() implies !is_space(#[trigger] w[i]) by {
            assert(w == ws[ws.len() - 1]);
        }
        lemma_strip_no_space(w);
        let (lines, cur) = wrap_words(prev, max);
        let (nl, nc) = wrap_step(lines, cur, w, max);
        assert(wrap_words(ws, max) == (nl, nc));
        let before = concat(lines) + cur;
        lemma_strip_add(before, w);
        if cur.len() == 0 {
            assert(before =~= concat(lines));
            lemma_start_line_concat(lines, w, max);
        } else if cur.len() + 1 + w.len() <= max {
            lemma_strip_add(before, seq![' ']);
            lemma_strip_add(before + seq![' '], w);
            assert(strip_spaces(seq![' ']) =~= Seq::<char>::empty()) by {
                let sp: Seq<char> = seq![' '];
                assert(sp.len() == 1 && sp[0] == ' ');
                assert(sp.last() == ' ');
                assert(sp.drop_last() =~= Seq::<char>::empty());
                assert(strip_spaces(Seq::<char>::empty()) == Seq::<char>::empty());
                assert(strip_spaces(sp) == strip_spaces(sp.drop_last()));
            }
            assert(concat(nl) + nc =~= before + seq![' '] + w);
        } else {
            let closed = lines.push(cur);
            assert(closed.drop_last() =~= lines);
            assert(concat(closed) == before);
            lemma_start_line_concat(closed, w, max);
        }
    }
}

/// Wrapping keeps the text: the wrapped lines, stripped of spaces, spell out
/// the words of the text in order; only spaces between words are added or lost.
pub proof fn lemma_wrapped_keeps_words(text: Seq<char>, max: int)
    ensures
        strip_spaces(concat(wrapped(text, max))) == concat(words(text)),
{
    lemma_words_no_space(text);
    lemma_wrap_words_keep_text(words(text), max);
    let (lines, cur) = wrap_words(words(text), max);
    if cur.len() > 0 {
        assert(lines.push(cur).drop_last() =~= lines);
    } else {
        assert(concat(lines) + cur =~= concat(lines));
    }
}

} // verus!
