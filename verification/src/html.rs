//! Reading the contribution grid out of GitHub's contributions page.
use vstd::prelude::*;
use crate::grid::ContributionGrid;
use crate::text::{chars_of, strings_view};

verus! {

#[verifier::external_type_specification]
#[verifier::external_body]
pub struct ExRegex(regex::Regex);

/// A compiled regular expression together with the pattern it was compiled from.
pub struct Pattern {
    re: regex::Regex,
    source: String,
}

impl Pattern {
    /// The pattern this expression was compiled from.
    pub closed spec fn source(&self) -> Seq<char> {
        self.source@
    }
}

/// Whether `pattern` is a valid pattern of the `regex` crate.
pub uninterp spec fn regex_compiles(pattern: Seq<char>) -> bool;

/// The texts of the successive non-overlapping matches of `pattern` in `haystack`.
pub uninterp spec fn regex_matches(pattern: Seq<char>, haystack: Seq<char>) -> Seq<Seq<char>>;

/// The groups of the first match of `pattern` in `haystack` (group 0 first;
/// `None` for a group that did not take part), or `None` when nothing matches.
pub uninterp spec fn regex_captures(pattern: Seq<char>, haystack: Seq<char>) -> Option<Seq<Option<Seq<char>>>>;

/// Calls `regex::Regex::new`: `None` stands for the error it returns for an
/// invalid pattern. The compiled expression keeps the pattern's text.
#[verifier::external_body]
fn compile(pattern: &str) -> (r: Option<Pattern>)
    ensures
        r is Some <==> regex_compiles(pattern@),
        r matches Some(p) ==> p.source() == pattern@,
{
    match regex::Regex::new(pattern) {
        Ok(re) => Some(Pattern { re, source: pattern.to_string() }),
        Err(_) => None,
    }
}

/// Calls `regex::Regex::find_iter` and collects the text of every match.
/// What matches depends on the pattern and the haystack alone.
#[verifier::external_body]
fn find_all(p: &Pattern, haystack: &str) -> (r: Vec<String>)
    ensures
        strings_view(r@) == regex_matches(p.source(), haystack@),
{
    let mut out = Vec::new();
    for m in p.re.find_iter(haystack) {
        out.push(m.as_str().to_string());
    }
    out
}

/// The groups of a capture, as plain sequences.
pub open spec fn groups_view(groups: Option<Vec<Option<String>>>) -> Option<Seq<Option<Seq<char>>>> {
    match groups {
        Some(v) => Some(group_texts(v@)),
        None => None,
    }
}

/// The texts of capture groups, as plain sequences.
pub open spec fn group_texts(groups: Seq<Option<String>>) -> Seq<Option<Seq<char>>> {
    groups.map_values(|g: Option<String>| match g {
        Some(s) => Some(s@),
        None => None,
    })
}

/// Calls `regex::Regex::captures` and collects the text of every group
/// (`Captures::iter`, group 0 first). What is captured depends on the pattern
/// and the haystack alone.
#[verifier::external_body]
fn capture_groups(p: &Pattern, haystack: &str) -> (r: Option<Vec<Option<String>>>)
    ensures
        groups_view(r) == regex_captures(p.source(), haystack@),
{
    match p.re.captures(haystack) {
        Some(caps) => {
            let mut groups = Vec::new();
            for g in caps.iter() {
                groups.push(
                    match g {
                        Some(m) => Some(m.as_str().to_string()),
                        None => None,
                    },
                );
            }
            Some(groups)
        },
        None => None,
    }
}

/// Pattern of the `<td>` tags of the calendar's days.
pub open spec fn day_tag_pattern() -> Seq<char> {
    r#"<td\b[^>]*\bclass="[^"]*ContributionCalendar-day[^"]*"[^>]*/?\s*>"#@
}

/// Pattern of a day's id, with its row and column.
pub open spec fn day_id_pattern() -> Seq<char> {
    r"contribution-day-component-(\d+)-(\d+)"@
}

/// Pattern of a day's contribution level.
pub open spec fn level_pattern() -> Seq<char> {
    r#"data-level="(\d)""#@
}

/// The value of the decimal digits `s`.
pub open spec fn digits_value(s: Seq<char>) -> int
    decreases s.len(),
{
    if s.len() == 0 {
        0
    } else {
        digits_value(s.drop_last()) * 10 + (s.last() as int - '0' as int)
    }
}

/// Whether every character of `s` is an ASCII digit.
pub open spec fn all_digits(s: Seq<char>) -> bool {
    forall|i: int| 0 <= i < s.len() ==> '0' <= #[trigger] s[i] <= '9'
}

/// `s` read as an unsigned integer no greater than `max`, as `str::parse`
/// reads one: an optional `+`, then at least one ASCII digit.
pub open spec fn parse_unsigned(s: Seq<char>, max: int) -> Option<int> {
    let d = if s.len() > 0 && s[0] == '+' {
        s.drop_first()
    } else {
        s
    };
    if d.len() == 0 || !all_digits(d) || digits_value(d) > max {
        None
    } else {
        Some(digits_value(d))
    }
}

/// Reads `s` as an unsigned integer no greater than `max`.
pub fn parse_unsigned_exec(s: &Vec<char>, max: u64) -> (r: Option<u64>)
    ensures
        match r {
            Some(x) => parse_unsigned(s@, max as int) == Some(x as int),
            None => parse_unsigned(s@, max as int) is None,
        },
{
    let mut i: usize = 0;
    if s.len() > 0 && s[0] == '+' {
        i = 1;
    }
    let start = i;
    let ghost d = s@.subrange(start as int, s@.len() as int);
    assert(d == (if s@.len() > 0 && s@[0] == '+' {
        s@.drop_first()
    } else {
        s@
    }));
    if start == s.len() {
        return None;
    }
    let mut v: u64 = 0;
    while i < s.len()
        invariant
            start <= i <= s.len(),
            start < s.len(),
            d == s@.subrange(start as int, s@.len() as int),
            d == (if s@.len() > 0 && s@[0] == '+' {
                s@.drop_first()
            } else {
                s@
            }),
            all_digits(s@.subrange(start as int, i as int)),
            v == digits_value(s@.subrange(start as int, i as int)),
            v <= max,
        decreases s.len() - i,
    {
        let c = s[i];
        assert(s@.subrange(start as int, i + 1).drop_last() =~= s@.subrange(start as int, i as int));
        if c < '0' || c > '9' {
            assert(!all_digits(d)) by {
                assert(d[i - start] == c);
            }
            return None;
        }
        let digit = (c as u32 - '0' as u32) as u64;
        assert(digit == c as int - '0' as int);
        if v > max / 10 || digit > max || v * 10 > max - digit {
            proof {
                if all_digits(d) {
                    lemma_digits_prefix(d, i + 1 - start);
                    assert(d.take(i + 1 - start) =~= s@.subrange(start as int, i + 1));
                }
            }
            return None;
        }
        v = v * 10 + digit;
        assert(all_digits(s@.subrange(start as int, i + 1))) by {
            assert forall|j: int| 0 <= j < i + 1 - start implies '0' <= #[trigger] s@.subrange(start as int, i + 1)[j] <= '9' by {
                if j < i - start {
                    assert(s@.subrange(start as int, i + 1)[j] == s@.subrange(start as int, i as int)[j]);
                }
            }
        }
        i = i + 1;
    }
    assert(s@.subrange(start as int, i as int) =~= d);
    Some(v)
}

/// A prefix of digits is worth no more than the whole.
proof fn lemma_digits_prefix(s: Seq<char>, k: int)
    requires
        0 <= k <= s.len(),
        all_digits(s),
    ensures
        digits_value(s.take(k)) <= digits_value(s),
        0 <= digits_value(s.take(k)),
    decreases s.len(),
{
    if k < s.len() {
        assert(s.drop_last().take(k) =~= s.take(k));
        assert(all_digits(s.drop_last())) by {
            assert forall|i: int| 0 <= i < s.drop_last().len() implies '0' <= #[trigger] s.drop_last()[i] <= '9' by {
                assert(s.drop_last()[i] == s[i]);
            }
        }
        lemma_digits_prefix(s.drop_last(), k);
        lemma_digits_prefix(s.drop_last(), s.len() - 1);
        assert(s.drop_last().take(s.len() - 1) =~= s.drop_last());
    } else {
        assert(s.take(k) =~= s);
        if s.len() > 0 {
            assert(all_digits(s.drop_last())) by {
                assert forall|i: int| 0 <= i < s.drop_last().len() implies '0' <= #[trigger] s.drop_last()[i] <= '9' by {
                    assert(s.drop_last()[i] == s[i]);
                }
            }
            lemma_digits_prefix(s.drop_last(), s.len() - 1);
            assert(s.drop_last().take(s.len() - 1) =~= s.drop_last());
        }
    }
}

/// Group `i` of a capture, `None` when it does not exist or did not take part.
pub open spec fn group_text(groups: Seq<Option<Seq<char>>>, i: int) -> Option<Seq<char>> {
    if 0 <= i < groups.len() {
        groups[i]
    } else {
        None
    }
}

/// What a day tag contributes: `Some(Some((row, col, level)))` for a day,
/// `Some(None)` for a tag without a day id or level (skipped), and `None`
/// when its row, column or level cannot be read.
pub open spec fn tag_cell(tag: Seq<char>) -> Option<Option<(int, int, int)>> {
    match regex_captures(day_id_pattern(), tag) {
        None => Some(None),
        Some(id) => match regex_captures(level_pattern(), tag) {
            None => Some(None),
            Some(lv) => match (group_text(id, 1), group_text(id, 2), group_text(lv, 1)) {
                (Some(r), Some(c), Some(l)) => match (
                    parse_unsigned(r, usize::MAX as int),
                    parse_unsigned(c, usize::MAX as int),
                    parse_unsigned(l, u8::MAX as int),
                ) {
                    (Some(r), Some(c), Some(l)) => Some(Some((r, c, l))),
                    _ => None,
                },
                _ => None,
            },
        },
    }
}

/// The days that the tags describe, in order, or `None` when one of them cannot be read.
pub open spec fn tag_cells(tags: Seq<Seq<char>>) -> Option<Seq<(int, int, int)>>
    decreases tags.len(),
{
    if tags.len() == 0 {
        Some(Seq::empty())
    } else {
        match tag_cells(tags.drop_last()) {
            None => None,
            Some(cells) => match tag_cell(tags.last()) {
                None => None,
                Some(None) => Some(cells),
                Some(Some(c)) => Some(cells.push(c)),
            },
        }
    }
}

/// The largest column of the days (0 without days).
pub open spec fn max_col(cells: Seq<(int, int, int)>) -> int
    decreases cells.len(),
{
    if cells.len() == 0 {
        0
    } else {
        let rest = max_col(cells.drop_last());
        if cells.last().1 > rest {
            cells.last().1
        } else {
            rest
        }
    }
}

/// Whether every day lies in one of the seven weekday rows.
pub open spec fn rows_in_week(cells: Seq<(int, int, int)>) -> bool {
    forall|k: int| 0 <= k < cells.len() ==> #[trigger] cells[k].0 < 7
}

/// The level of the last day given for (`r`, `c`), `None` when there is none.
pub open spec fn level_at(cells: Seq<(int, int, int)>, r: int, c: int) -> Option<u8>
    decreases cells.len(),
{
    if cells.len() == 0 {
        None
    } else if cells.last().0 == r && cells.last().1 == c {
        Some(cells.last().2 as u8)
    } else {
        level_at(cells.drop_last(), r, c)
    }
}

/// The grid of the days: seven rows, as many columns as the largest column
/// needs, each cell holding the level given last for it. `None` when a day
/// lies outside the seven rows or the column count does not fit in a `usize`.
pub open spec fn grid_of_cells(cells: Seq<(int, int, int)>) -> Option<Seq<Seq<Option<u8>>>> {
    let m = max_col(cells);
    if m >= usize::MAX || !rows_in_week(cells) {
        None
    } else {
        Some(Seq::new(7, |r: int| Seq::new((m + 1) as nat, |c: int| level_at(cells, r, c))))
    }
}

/// The grid that the contributions page `html` describes, `None` when a
/// pattern does not compile or the page cannot be read as a grid.
pub open spec fn parsed_page(html: Seq<char>) -> Option<Seq<Seq<Option<u8>>>> {
    if !regex_compiles(day_tag_pattern()) || !regex_compiles(day_id_pattern()) || !regex_compiles(level_pattern()) {
        None
    } else {
        match tag_cells(regex_matches(day_tag_pattern(), html)) {
            None => None,
            Some(cells) => grid_of_cells(cells),
        }
    }
}

/// Reads group `i` of `groups` as an unsigned integer no greater than `max`.
fn group_number(groups: &Vec<Option<String>>, i: usize, max: u64) -> (r: Option<u64>)
    ensures
        match group_text(group_texts(groups@), i as int) {
            Some(t) => match r {
                Some(x) => parse_unsigned(t, max as int) == Some(x as int),
                None => parse_unsigned(t, max as int) is None,
            },
            None => r is None,
        },
{
    if i >= groups.len() {
        return None;
    }
    match &groups[i] {
        Some(text) => parse_unsigned_exec(&chars_of(text.as_str()), max),
        None => None,
    }
}

/// Builds the contribution grid from GitHub's contributions page: every
/// `<td>` of class `ContributionCalendar-day` whose id gives its row and
/// column and which has a `data-level` becomes that cell's level.
///
/// `None` when a pattern does not compile, a day's row, column or level
/// cannot be read, a day's row is not a weekday, or the column count
/// overflows.
pub fn parse_contribution_html(html: &str) -> (r: Option<ContributionGrid>)
    ensures
        match parsed_page(html@) {
            Some(g) => r matches Some(grid) && grid@ == g,
            None => r is None,
        },
{
    let td_re = compile(r#"<td\b[^>]*\bclass="[^"]*ContributionCalendar-day[^"]*"[^>]*/?\s*>"#);
    let id_re = compile(r"contribution-day-component-(\d+)-(\d+)");
    let level_re = compile(r#"data-level="(\d)""#);
    let (td_re, id_re, level_re) = match (td_re, id_re, level_re) {
        (Some(a), Some(b), Some(c)) => (a, b, c),
        _ => {
            return None;
        },
    };
    let tags = find_all(&td_re, html);
    let ghost tag_seq = strings_view(tags@);
    let mut cells: Vec<(usize, usize, u8)> = Vec::new();
    let ghost mut cell_seq: Seq<(int, int, int)> = Seq::empty();
    let mut k: usize = 0;
    while k < tags.len()
        invariant
            k <= tags.len(),
            tag_seq == strings_view(tags@),
            tag_seq == regex_matches(day_tag_pattern(), html@),
            id_re.source() == day_id_pattern(),
            level_re.source() == level_pattern(),
            tag_cells(tag_seq.take(k as int)) == Some(cell_seq),
            cells@.len() == cell_seq.len(),
            forall|j: int| 0 <= j < cells@.len() ==> #[trigger] cell_seq[j] == (cells@[j].0 as int, cells@[j].1 as int, cells@[j].2 as int),
        decreases tags.len() - k,
    {
        assert(tag_seq.take(k + 1).drop_last() =~= tag_seq.take(k as int));
        assert(tag_seq.take(k + 1).last() == tags@[k as int]@);
        let tag = tags[k].as_str();
        let id_caps = capture_groups(&id_re, tag);
        let level_caps = capture_groups(&level_re, tag);
        if id_caps.is_none() || level_caps.is_none() {
            assert(tag_cell(tags@[k as int]@) == Some(None::<(int, int, int)>));
            k = k + 1;
            continue;
        }
        let id_caps = id_caps.unwrap();
        let level_caps = level_caps.unwrap();
        let row = group_number(&id_caps, 1, usize::MAX as u64);
        let col = group_number(&id_caps, 2, usize::MAX as u64);
        let level = group_number(&level_caps, 1, 255);
        let (row, col, level) = match (row, col, level) {
            (Some(r), Some(c), Some(l)) => {
                assert(r <= usize::MAX && c <= usize::MAX && l <= 255);
                (r as usize, c as usize, l as u8)
            },
            _ => {
                assert(tag_cell(tags@[k as int]@) is None);
                assert(tag_cells(tag_seq) is None) by {
                    lemma_tag_cells_fail(tag_seq, k as int + 1);
                }
                return None;
            },
        };
        assert(tag_cell(tags@[k as int]@) == Some(Some((row as int, col as int, level as int))));
        cells.push((row, col, level));
        proof {
            assert(cell_seq.push((row as int, col as int, level as int)).drop_last() =~= cell_seq);
            cell_seq = cell_seq.push((row as int, col as int, level as int));
        }
        k = k + 1;
    }
    assert(tag_seq.take(k as int) =~= tag_seq);
    assert(parsed_page(html@) == grid_of_cells(cell_seq));
    assert(cells_view(cells@) =~= cell_seq);
    grid_from_cells(&cells)
}

/// The days `(row, column, level)`, as integers.
pub open spec fn cells_view(cells: Seq<(usize, usize, u8)>) -> Seq<(int, int, int)> {
    cells.map_values(|c: (usize, usize, u8)| (c.0 as int, c.1 as int, c.2 as int))
}

/// Builds the grid of the days `(row, column, level)`: seven rows, as many
/// columns as the largest column needs, each cell holding the level given
/// last for it, and `None` for a day that is not given.
///
/// `None` when a day's row is not a weekday (7 or more) or the column count
/// overflows.
pub fn grid_from_cells(cells: &Vec<(usize, usize, u8)>) -> (r: Option<ContributionGrid>)
    ensures
        match grid_of_cells(cells_view(cells@)) {
            Some(g) => r matches Some(grid) && grid@ == g,
            None => r is None,
        },
{
    let ghost cell_seq = cells_view(cells@);
    let mut max_column: usize = 0;
    let mut k: usize = 0;
    while k < cells.len()
        invariant
            k <= cells.len(),
            cell_seq == cells_view(cells@),
            max_column == max_col(cell_seq.take(k as int)),
        decreases cells.len() - k,
    {
        assert(cell_seq.take(k + 1).drop_last() =~= cell_seq.take(k as int));
        assert(cell_seq.take(k + 1).last() == cell_seq[k as int]);
        let col = cells[k].1;
        if col > max_column {
            max_column = col;
        }
        k = k + 1;
    }
    assert(cell_seq.take(k as int) =~= cell_seq);
    if max_column == usize::MAX {
        return None;
    }
    let num_cols = max_column + 1;
    let mut rows: Vec<Vec<Option<u8>>> = Vec::new();
    let mut r: usize = 0;
    while r < 7
        invariant
            r <= 7,
            rows@.len() == r,
            forall|i: int| 0 <= i < r ==> #[trigger] rows@[i]@ =~= Seq::new(num_cols as nat, |c: int| None::<u8>),
        decreases 7 - r,
    {
        let mut row: Vec<Option<u8>> = Vec::new();
        let mut c: usize = 0;
        while c < num_cols
            invariant
                c <= num_cols,
                row@ =~= Seq::new(c as nat, |j: int| None::<u8>),
            decreases num_cols - c,
        {
            row.push(None);
            c = c + 1;
        }
        rows.push(row);
        r = r + 1;
    }
    let mut k: usize = 0;
    while k < cells.len()
        invariant
            k <= cells.len(),
            cell_seq == cells_view(cells@),
            max_column == max_col(cell_seq),
            num_cols == max_column + 1,
            rows_in_week(cell_seq.take(k as int)),
            rows@.len() == 7,
            forall|i: int| 0 <= i < 7 ==> #[trigger] rows@[i]@ =~= Seq::new(num_cols as nat, |c: int| level_at(cell_seq.take(k as int), i, c)),
        decreases cells.len() - k,
    {
        let (row, col, level) = cells[k];
        assert(cell_seq[k as int] == (row as int, col as int, level as int));
        assert(cell_seq.take(k + 1).drop_last() =~= cell_seq.take(k as int));
        if row >= 7 {
            assert(!rows_in_week(cell_seq)) by {
                assert(cell_seq[k as int].0 >= 7);
            }
            return None;
        }
        proof {
            lemma_max_col_bound(cell_seq, k as int);
        }
        let mut line = rows.remove(row);
        line[col] = Some(level);
        rows.insert(row, line);
        k = k + 1;
        assert forall|i: int| 0 <= i < 7 implies #[trigger] rows@[i]@ =~= Seq::new(num_cols as nat, |c: int| level_at(cell_seq.take(k as int), i, c)) by {
            assert forall|c: int| 0 <= c < num_cols implies #[trigger] rows@[i]@[c] == level_at(cell_seq.take(k as int), i, c) by {
                assert(cell_seq.take(k as int).last() == cell_seq[k - 1]);
            }
        }
        assert(rows_in_week(cell_seq.take(k as int))) by {
            assert forall|j: int| 0 <= j < k implies #[trigger] cell_seq.take(k as int)[j].0 < 7 by {
                if j < k - 1 {
                    assert(cell_seq.take(k as int)[j] == cell_seq.take(k - 1)[j]);
                }
            }
        }
    }
    assert(cell_seq.take(k as int) =~= cell_seq);
    let grid = ContributionGrid { rows };
    assert(grid@ =~= grid_of_cells(cell_seq).unwrap());
    Some(grid)
}

/// A tag that cannot be read makes the whole page unreadable.
proof fn lemma_tag_cells_fail(tags: Seq<Seq<char>>, n: int)
    requires
        0 < n <= tags.len(),
        tag_cells(tags.take(n)) is None,
    ensures
        tag_cells(tags) is None,
    decreases tags.len() - n,
{
    if n < tags.len() {
        assert(tags.take(n + 1).drop_last() =~= tags.take(n));
        lemma_tag_cells_fail(tags, n + 1);
    } else {
        assert(tags.take(n) =~= tags);
    }
}

/// No day's column exceeds the largest column.
proof fn lemma_max_col_bound(cells: Seq<(int, int, int)>, k: int)
    requires
        0 <= k < cells.len(),
    ensures
        cells[k].1 <= max_col(cells),
    decreases cells.len(),
{
    if k < cells.len() - 1 {
        lemma_max_col_bound(cells.drop_last(), k);
        assert(cells.drop_last()[k] == cells[k]);
    }
}

} // verus!
