//! A small line-oriented CSV reader: helpers that split text at a target
//! character, a header parser that collects the column names, and a row
//! parser that accepts quoted and unquoted fields.
//!
//! The functions work on whole lines; whoever owns the input reads the lines
//! and hands them in as text.

use vstd::prelude::*;
use vstd::string::StrSliceExecFns;

verus! {

/// The position of the first occurrence of `c` in `s`, or `s.len()` when
/// `c` does not occur.
pub open spec fn find_char(s: Seq<char>, c: char) -> int
    decreases s.len(),
{
    if s.len() == 0 {
        0
    } else if s[0] == c {
        0
    } else {
        1 + find_char(s.skip(1), c)
    }
}

/// What `find_char` returns: the position of the first occurrence, or the
/// length when there is none.
pub proof fn lemma_find_char(s: Seq<char>, c: char)
    ensures
        0 <= find_char(s, c) <= s.len(),
        forall|j: int| 0 <= j < find_char(s, c) ==> s[j] != c,
        find_char(s, c) < s.len() ==> s[find_char(s, c)] == c,
    decreases s.len(),
{
    if s.len() > 0 && s[0] != c {
        lemma_find_char(s.skip(1), c);
        assert(forall|j: int| 0 <= j < find_char(s.skip(1), c) ==> s.skip(1)[j] != c);
        assert(forall|j: int| 1 <= j < find_char(s, c) ==> s[j] == s.skip(1)[j - 1]);
    }
}

/// A position with no occurrence before it that holds an occurrence, or is
/// the end, is the one `find_char` returns.
pub proof fn lemma_find_char_is(s: Seq<char>, c: char, k: int)
    requires
        0 <= k <= s.len(),
        forall|j: int| 0 <= j < k ==> s[j] != c,
        k < s.len() ==> s[k] == c,
    ensures
        find_char(s, c) == k,
    decreases s.len(),
{
    if s.len() > 0 && s[0] != c {
        assert(forall|j: int| 0 <= j < k - 1 ==> s.skip(1)[j] == s[j + 1]);
        lemma_find_char_is(s.skip(1), c, k - 1);
    }
}

/// The blanks that `trim` strips.
pub open spec fn is_space(c: char) -> bool {
    c == ' ' || c == '\t' || c == '\n' || c == '\r'
}

/// The number of leading blanks of `s`.
pub open spec fn leading_spaces(s: Seq<char>) -> int
    decreases s.len(),
{
    if s.len() == 0 {
        0
    } else if !is_space(s[0]) {
        0
    } else {
        1 + leading_spaces(s.skip(1))
    }
}

/// The length `s` keeps once its trailing blanks are stripped.
pub open spec fn trimmed_end(s: Seq<char>) -> int
    decreases s.len(),
{
    if s.len() == 0 {
        0
    } else if !is_space(s.last()) {
        s.len() as int
    } else {
        trimmed_end(s.drop_last())
    }
}

/// `s` with leading and trailing blanks stripped.
pub open spec fn trim_spec(s: Seq<char>) -> Seq<char> {
    let rest = s.skip(leading_spaces(s));
    rest.take(trimmed_end(rest))
}

/// A position up to which everything is blank, and which is the end or not
/// blank itself, is the number of leading blanks.
proof fn lemma_leading_spaces_is(s: Seq<char>, b: int)
    requires
        0 <= b <= s.len(),
        forall|j: int| 0 <= j < b ==> is_space(s[j]),
        b < s.len() ==> !is_space(s[b]),
    ensures
        leading_spaces(s) == b,
    decreases s.len(),
{
    if s.len() > 0 && is_space(s[0]) {
        assert(forall|j: int| 0 <= j < b - 1 ==> s.skip(1)[j] == s[j + 1]);
        lemma_leading_spaces_is(s.skip(1), b - 1);
    }
}

/// A position from which everything is blank, and which is the start or
/// follows something not blank, is where the trailing blanks begin.
proof fn lemma_trimmed_end_is(s: Seq<char>, e: int)
    requires
        0 <= e <= s.len(),
        forall|j: int| e <= j < s.len() ==> is_space(s[j]),
        e > 0 ==> !is_space(s[e - 1]),
    ensures
        trimmed_end(s) == e,
    decreases s.len(),
{
    if s.len() > 0 && is_space(s.last()) {
        assert(forall|j: int| 0 <= j < s.len() - 1 ==> s.drop_last()[j] == s[j]);
        lemma_trimmed_end_is(s.drop_last(), e);
    }
}

/// Whether `c` is one of the blanks that `trim` strips.
fn is_space_char(c: char) -> (blank: bool)
    ensures
        blank == is_space(c),
{
    c == ' ' || c == '\t' || c == '\n' || c == '\r'
}

/// `input` with leading and trailing blanks stripped.
pub fn trim(input: &str) -> (trimmed: &str)
    ensures
        trimmed@ == trim_spec(input@),
{
    let n = input.unicode_len();
    let mut b: usize = 0;
    while b < n && is_space_char(input.get_char(b))
        invariant
            0 <= b <= n,
            n == input@.len(),
            forall|j: int| 0 <= j < b ==> is_space(input@[j]),
        decreases n - b,
    {
        b += 1;
    }
    let mut e: usize = n;
    while e > b && is_space_char(input.get_char(e - 1))
        invariant
            b <= e <= n,
            n == input@.len(),
            forall|j: int| 0 <= j < b ==> is_space(input@[j]),
            forall|j: int| e <= j < n ==> is_space(input@[j]),
        decreases e,
    {
        e -= 1;
    }
    let trimmed = input.substring_char(b, e);
    proof {
        lemma_leading_spaces_is(input@, b as int);
        let rest = input@.skip(b as int);
        assert(forall|j: int| 0 <= j < rest.len() ==> rest[j] == input@[j + b]);
        if e == b {
            lemma_trimmed_end_is(rest, 0);
        } else {
            lemma_trimmed_end_is(rest, e - b);
        }
        assert(trimmed@ =~= trim_spec(input@));
    }
    trimmed
}

/// Whether two pieces of text hold the same characters.
pub fn str_eq(a: &str, b: &str) -> (same: bool)
    ensures
        same == (a@ == b@),
{
    let n = a.unicode_len();
    if n != b.unicode_len() {
        return false;
    }
    let mut i: usize = 0;
    while i < n
        invariant
            0 <= i <= n,
            n == a@.len(),
            n == b@.len(),
            forall|j: int| 0 <= j < i ==> a@[j] == b@[j],
        decreases n - i,
    {
        if a.get_char(i) != b.get_char(i) {
            return false;
        }
        i += 1;
    }
    proof {
        assert(a@ =~= b@);
    }
    true
}

/// If `input` starts with `target`, the rest of it after that first
/// character; `None` otherwise.
pub fn skip_next(input: &str, target: char) -> (rest: Option<&str>)
    ensures
        match rest {
            Some(r) => input@.len() > 0 && input@[0] == target && r@ == input@.skip(1),
            None => input@.len() == 0 || input@[0] != target,
        },
{
    let n = input.unicode_len();
    if n == 0 {
        return None;
    }
    if input.get_char(0) == target {
        Some(input.substring_char(1, n))
    } else {
        None
    }
}

/// Split `input` at the first occurrence of `target`: the part before it,
/// and the part from it on. When `target` does not occur, the whole of
/// `input` and the empty rest.
pub fn take_until<'a>(input: &'a str, target: char) -> (parts: (&'a str, &'a str))
    ensures
        parts.0@ == input@.take(find_char(input@, target)),
        parts.1@ == input@.skip(find_char(input@, target)),
{
    let n = input.unicode_len();
    let mut i: usize = 0;
    while i < n
        invariant
            0 <= i <= n,
            n == input@.len(),
            forall|j: int| 0 <= j < i ==> input@[j] != target,
        decreases n - i,
    {
        if input.get_char(i) == target {
            proof {
                lemma_find_char_is(input@, target, i as int);
            }
            return (input.substring_char(0, i), input.substring_char(i, n));
        }
        i += 1;
    }
    proof {
        lemma_find_char_is(input@, target, n as int);
        reveal_strlit("");
        assert(""@ =~= input@.skip(n as int));
        assert(input@.take(n as int) =~= input@);
    }
    (input, "")
}

/// The errors of the CSV reader.
#[derive(Debug)]
pub enum CsvError {
    /// The input could not be read; the text carries the reader's words.
    IO(String),
    /// The header line is empty, has no columns, or names a column twice.
    InvalidHeader(String),
    /// A row does not fit the header: too few values, an unclosed quote,
    /// a missing comma, or text after the last value.
    InvalidRow(String),
}

/// The column names of a header line: the text between the commas, each
/// stripped of surrounding blanks.
pub open spec fn split_header(s: Seq<char>) -> Seq<Seq<char>>
    decreases s.len(),
{
    if s.len() == 0 {
        seq![]
    } else {
        let k = find_char(s, ',');
        if k == s.len() {
            seq![trim_spec(s.take(k))]
        } else {
            proof {
                lemma_find_char(s, ',');
            }
            seq![trim_spec(s.take(k))] + split_header(s.skip(k + 1))
        }
    }
}

/// Whether some name occurs twice in the list.
pub open spec fn has_duplicate(cols: Seq<Seq<char>>) -> bool {
    exists|i: int, j: int| 0 <= i < j < cols.len() && cols[i] == cols[j]
}

/// The text of each column name.
pub open spec fn col_views(cs: Seq<String>) -> Seq<Seq<char>> {
    cs.map_values(|c: String| c@)
}

/// The text of each entry of a row: its column name and its value.
pub open spec fn row_views(rs: Seq<(String, String)>) -> Seq<(Seq<char>, Seq<char>)> {
    rs.map_values(|p: (String, String)| (p.0@, p.1@))
}

/// How one line of values is read against the column list, column `i`
/// onwards: `None` when the line does not fit the columns, else the entries
/// the row yields, in column order. A value either stands in quotes — then
/// it is taken verbatim between the first quote and the next, and anything
/// up to the following comma is passed over — or it runs up to the next
/// comma, stripped of leading blanks by the round of trimming that starts
/// every column. A last unquoted value with no comma after it is passed
/// over without being recorded.
pub open spec fn parse_fields(cols: Seq<Seq<char>>, i: int, rem: Seq<char>) -> Option<
    Seq<(Seq<char>, Seq<char>)>,
>
    decreases cols.len() - i,
{
    if i < 0 || i >= cols.len() {
        Some(seq![])
    } else {
        let t = trim_spec(rem);
        if t.len() == 0 {
            None
        } else if t[0] == '"' {
            let u = t.skip(1);
            let k = find_char(u, '"');
            if k == u.len() {
                None
            } else {
                let data = u.take(k);
                let after = u.skip(k + 1);
                let k2 = find_char(after, ',');
                if k2 == after.len() {
                    if i + 1 < cols.len() {
                        None
                    } else {
                        Some(seq![(cols[i], data)])
                    }
                } else {
                    let s2 = after.skip(k2 + 1);
                    if s2.len() > 0 && i + 1 == cols.len() {
                        None
                    } else {
                        match parse_fields(cols, i + 1, s2) {
                            None => None,
                            Some(tail) => Some(seq![(cols[i], data)] + tail),
                        }
                    }
                }
            }
        } else {
            let k = find_char(t, ',');
            if k == t.len() {
                if i + 1 < cols.len() {
                    None
                } else {
                    Some(seq![])
                }
            } else {
                let data = t.take(k);
                let s2 = t.skip(k + 1);
                if s2.len() > 0 && i + 1 == cols.len() {
                    None
                } else {
                    match parse_fields(cols, i + 1, s2) {
                        None => None,
                        Some(tail) => Some(seq![(cols[i], data)] + tail),
                    }
                }
            }
        }
    }
}

/// A line-oriented CSV reader: it keeps the column names of the header it
/// was built from, and reads rows against them.
pub struct Csv {
    /// The column names, in header order.
    pub columns: Vec<String>,
}

impl Csv {
    /// The text of the column names, in order.
    pub open spec fn cols(&self) -> Seq<Seq<char>> {
        col_views(self.columns@)
    }

    /// Build a reader from a header line. Fails when the line is empty,
    /// when two columns carry the same name, and when there is no column at
    /// all; on success the columns are the comma-separated names of the
    /// line, each stripped of surrounding blanks.
    pub fn new(header: &str) -> (result: Result<Csv, CsvError>)
        ensures
            header@.len() == 0 ==> (result matches Err(CsvError::InvalidHeader(_))),
            header@.len() > 0 && (has_duplicate(split_header(trim_spec(header@)))
                || split_header(trim_spec(header@)).len() == 0) ==> (result matches Err(
                CsvError::InvalidHeader(_),
            )),
            header@.len() > 0 && !has_duplicate(split_header(trim_spec(header@))) && split_header(
                trim_spec(header@),
            ).len() > 0 ==> (result matches Ok(csv) && csv.cols() == split_header(
                trim_spec(header@),
            )),
    {
        if header.unicode_len() == 0 {
            return Err(CsvError::InvalidHeader(String::from_str("Empty reader")));
        }
        let ghost all_cols = split_header(trim_spec(header@));
        let mut line: &str = trim(header);
        let mut columns: Vec<String> = Vec::new();
        while line.unicode_len() != 0
            invariant_except_break
                all_cols == split_header(trim_spec(header@)),
                header@.len() > 0,
                all_cols == col_views(columns@) + split_header(line@),
                !has_duplicate(col_views(columns@)),
            ensures
                all_cols == split_header(trim_spec(header@)),
                header@.len() > 0,
                all_cols == col_views(columns@),
                !has_duplicate(col_views(columns@)),
            decreases line@.len(),
        {
            let (column_raw, rem) = take_until(line, ',');
            let column = trim(column_raw);
            let ghost partial = col_views(columns@);
            let ghost k = find_char(line@, ',');
            proof {
                lemma_find_char(line@, ',');
                assert(split_header(line@) == if k == line@.len() {
                    seq![trim_spec(line@.take(k))]
                } else {
                    seq![trim_spec(line@.take(k))] + split_header(line@.skip(k + 1))
                });
            }

            let mut dup = false;
            let mut j: usize = 0;
            while j < columns.len()
                invariant
                    j <= columns@.len(),
                    column@ == trim_spec(line@.take(k)),
                    dup ==> (exists|m: int|
                        0 <= m < columns@.len() && col_views(columns@)[m] == column@),
                    !dup ==> (forall|m: int| 0 <= m < j ==> col_views(columns@)[m] != column@),
                decreases columns@.len() - j,
            {
                proof {
                    assert(col_views(columns@)[j as int] == columns@[j as int]@);
                }
                if str_eq(columns[j].as_str(), column) {
                    dup = true;
                }
                j += 1;
            }
            if dup {
                proof {
                    let m = choose|m: int|
                        0 <= m < columns@.len() && col_views(columns@)[m] == column@;
                    assert(split_header(line@)[0] == column@);
                    assert(all_cols[partial.len() as int] == column@);
                    assert(all_cols[m] == column@);
                    assert(has_duplicate(all_cols));
                }
                return Err(CsvError::InvalidHeader(String::from_str("Duplicate column names!")));
            }

            columns.push(String::from_str(column));
            proof {
                assert(col_views(columns@) =~= partial + seq![column@]);
            }
            match skip_next(rem, ',') {
                Some(s) => {
                    proof {
                        if k == line@.len() {
                            assert(rem@.len() == 0);
                            assert(false);
                        }
                        assert(s@ == line@.skip(k + 1));
                        assert(all_cols =~= col_views(columns@) + split_header(s@));
                    }
                    line = s;
                },
                None => {
                    proof {
                        if k < line@.len() {
                            assert(rem@[0] == line@[k]);
                            assert(false);
                        }
                        assert(split_header(line@) =~= seq![column@]);
                        assert(all_cols =~= col_views(columns@));
                    }
                    break ;
                },
            }
        }

        if columns.len() == 0 {
            proof {
                assert(col_views(columns@) =~= Seq::<Seq<char>>::empty());
            }
            return Err(CsvError::InvalidHeader(String::from_str("No columns!")));
        }
        Ok(Csv { columns })
    }

    /// Read one line of values against the columns: the entries of the row,
    /// or the error that names what does not fit. The reader itself is left
    /// as it is.
    pub fn parse_line(&mut self, line: &str) -> (result: Result<Vec<(String, String)>, CsvError>)
        ensures
            *final(self) == *old(self),
            (parse_fields(old(self).cols(), 0, line@) matches Some(entries) && result matches Ok(
                row,
            ) && row_views(row@) == entries) || (parse_fields(old(self).cols(), 0, line@) is None
                && result matches Err(CsvError::InvalidRow(_))),
    {
        let ghost cols = self.cols();
        let n = self.columns.len();
        let mut row: Vec<(String, String)> = Vec::new();
        let mut rem: &str = line;
        let mut i: usize = 0;
        while i < n
            invariant
                *self == *old(self),
                i <= n,
                n == cols.len(),
                cols == old(self).cols(),
                (parse_fields(cols, i as int, rem@) matches Some(tail) && parse_fields(
                    cols,
                    0,
                    line@,
                ) == Some(row_views(row@) + tail)) || (parse_fields(cols, i as int, rem@) is None
                    && parse_fields(cols, 0, line@) is None),
            decreases n - i,
        {
            let ghost rem0 = rem@;
            let ghost rv0 = row_views(row@);
            rem = trim(rem);
            let ghost t = trim_spec(rem0);
            if rem.unicode_len() == 0 {
                proof {
                    assert(parse_fields(cols, i as int, rem0) is None);
                }
                return Err(CsvError::InvalidRow(String::from_str("Smaller number of values!")));
            }
            match skip_next(rem, '\"') {
                Some(s) => {
                    let ghost u = t.skip(1);
                    match take_and_skip(s, '\"') {
                        Some((data, s1)) => {
                            let ghost k = find_char(u, '\"');
                            let ghost after = u.skip(k + 1);
                            let ghost entry = (cols[i as int], data@);
                            row.push((clone_string(&self.columns[i]), String::from_str(data)));
                            proof {
                                assert(row_views(row@) =~= rv0 + seq![entry]);
                            }
                            match take_and_skip(s1, ',') {
                                Some((_, s2)) => {
                                    if s2.unicode_len() > 0 && i + 1 == n {
                                        proof {
                                            assert(parse_fields(cols, i as int, rem0) is None);
                                        }
                                        return Err(
                                            CsvError::InvalidRow(
                                                String::from_str("Text after last data!"),
                                            ),
                                        );
                                    }
                                    rem = s2;
                                    proof {
                                        lemma_parse_step(cols, i as int, rem0, entry, rem@, rv0);
                                    }
                                },
                                None => {
                                    if i + 1 < n {
                                        proof {
                                            assert(parse_fields(cols, i as int, rem0) is None);
                                        }
                                        return Err(
                                            CsvError::InvalidRow(
                                                String::from_str("No comma between data!"),
                                            ),
                                        );
                                    }
                                    rem = s1;
                                    proof {
                                        assert(parse_fields(cols, i as int, rem0) == Some(
                                            seq![entry],
                                        ));
                                        assert(parse_fields(cols, i as int + 1, rem@) == Some(
                                            Seq::<(Seq<char>, Seq<char>)>::empty(),
                                        ));
                                        assert(rv0 + seq![entry] + Seq::<(Seq<char>, Seq<char>)>::empty()
                                            =~= rv0 + seq![entry]);
                                    }
                                },
                            }
                        },
                        None => {
                            proof {
                                assert(parse_fields(cols, i as int, rem0) is None);
                            }
                            return Err(CsvError::InvalidRow(String::from_str("No closing \" !")));
                        },
                    }
                },
                None => {
                    match take_and_skip(rem, ',') {
                        Some((data, s2)) => {
                            if s2.unicode_len() > 0 && i + 1 == n {
                                proof {
                                    assert(parse_fields(cols, i as int, rem0) is None);
                                }
                                return Err(
                                    CsvError::InvalidRow(String::from_str("Text after last data!")),
                                );
                            }
                            let ghost entry = (cols[i as int], data@);
                            row.push((clone_string(&self.columns[i]), String::from_str(data)));
                            rem = s2;
                            proof {
                                assert(row_views(row@) =~= rv0 + seq![entry]);
                                lemma_parse_step(cols, i as int, rem0, entry, rem@, rv0);
                            }
                        },
                        None => {
                            if i + 1 < n {
                                proof {
                                    assert(parse_fields(cols, i as int, rem0) is None);
                                }
                                return Err(
                                    CsvError::InvalidRow(String::from_str("No comma between data!")),
                                );
                            }
                            proof {
                                assert(parse_fields(cols, i as int, rem0) == Some(
                                    Seq::<(Seq<char>, Seq<char>)>::empty(),
                                ));
                                assert(rv0 + Seq::<(Seq<char>, Seq<char>)>::empty() =~= rv0);
                            }
                        },
                    }
                },
            }
            i += 1;
        }
        Ok(row)
    }
}

/// One successful column step: when reading column `i` yields `entry` and
/// leaves `rest`, the whole row is the entries so far, the entry, and what
/// the remaining columns yield.
proof fn lemma_parse_step(
    cols: Seq<Seq<char>>,
    i: int,
    rem0: Seq<char>,
    entry: (Seq<char>, Seq<char>),
    rest: Seq<char>,
    rv0: Seq<(Seq<char>, Seq<char>)>,
)
    requires
        0 <= i < cols.len(),
        parse_fields(cols, i, rem0) == (match parse_fields(cols, i + 1, rest) {
            None => None::<Seq<(Seq<char>, Seq<char>)>>,
            Some(tail) => Some(seq![entry] + tail),
        }),
    ensures
        (parse_fields(cols, i + 1, rest) matches Some(tail2) && (match parse_fields(
            cols,
            i,
            rem0,
        ) {
            Some(tail) => rv0 + tail =~= (rv0 + seq![entry]) + tail2,
            None => false,
        })) || (parse_fields(cols, i + 1, rest) is None && parse_fields(cols, i, rem0) is None),
{
    match parse_fields(cols, i + 1, rest) {
        None => {},
        Some(tail2) => {
            assert(rv0 + (seq![entry] + tail2) =~= (rv0 + seq![entry]) + tail2);
        },
    }
}

/// A copy of a piece of text.
fn clone_string(s: &String) -> (copied: String)
    ensures
        copied@ == s@,
{
    s.clone()
}

/// Split `input` at the first occurrence of `target` and drop that
/// occurrence: the part before it and the part after it, or `None` when
/// `target` does not occur.
pub fn take_and_skip<'a>(input: &'a str, target: char) -> (parts: Option<(&'a str, &'a str)>)
    ensures
        match parts {
            Some(p) => find_char(input@, target) < input@.len() && p.0@ == input@.take(
                find_char(input@, target),
            ) && p.1@ == input@.skip(find_char(input@, target) + 1),
            None => find_char(input@, target) == input@.len(),
        },
{
    let (before, from) = take_until(input, target);
    proof {
        lemma_find_char(input@, target);
    }
    match skip_next(from, target) {
        Some(after) => {
            proof {
                let k = find_char(input@, target);
                assert(after@ =~= input@.skip(k + 1));
            }
            Some((before, after))
        },
        None => {
            proof {
                let k = find_char(input@, target);
                if k < input@.len() {
                    assert(from@[0] == input@[k]);
                }
            }
            None
        },
    }
}

} // verus!
