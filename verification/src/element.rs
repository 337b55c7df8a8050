//! One record of the weekly epidemiological series: the country, the week,
//! and the counted cases and deaths. A record can be read back from the
//! semicolon-separated form `country;year-week;cases;deaths`.

use crate::csv_parser::{find_char, lemma_find_char, skip_next, take_until, trim, trim_spec};
use vstd::prelude::*;
use vstd::string::StrSliceExecFns;
use vstd::string::StringExecFns;

verus! {

/// The parts of `s` between its semicolons, in order; the empty text has
/// one empty part.
pub open spec fn split_semi(s: Seq<char>) -> Seq<Seq<char>>
    decreases s.len(),
{
    let k = find_char(s, ';');
    if k == s.len() {
        seq![s]
    } else {
        proof {
            lemma_find_char(s, ';');
        }
        seq![s.take(k)] + split_semi(s.skip(k + 1))
    }
}

/// Whether `c` is a decimal digit.
pub open spec fn is_digit(c: char) -> bool {
    '0' <= c && c <= '9'
}

/// Whether every character of `s` is a decimal digit.
pub open spec fn all_digits(s: Seq<char>) -> bool {
    forall|i: int| 0 <= i < s.len() ==> is_digit(s[i])
}

/// The number the digits of `s` write in decimal.
pub open spec fn dec_val(s: Seq<char>) -> int
    decreases s.len(),
{
    if s.len() == 0 {
        0
    } else {
        dec_val(s.drop_last()) * 10 + (s.last() as int - '0' as int)
    }
}

/// The digits of a decimal integer: everything after one optional leading
/// plus sign.
pub open spec fn u64_body(s: Seq<char>) -> Seq<char> {
    if s.len() > 0 && s[0] == '+' {
        s.skip(1)
    } else {
        s
    }
}

/// Whether `s` writes an unsigned 64-bit number: an optional plus sign,
/// then at least one digit, with a value that fits.
pub open spec fn valid_u64_str(s: Seq<char>) -> bool {
    u64_body(s).len() > 0 && all_digits(u64_body(s)) && dec_val(u64_body(s)) <= u64::MAX
}

/// A sequence of digits writes a number at least as large as any of its
/// prefixes writes, and never a negative one.
proof fn lemma_dec_val_prefix(s: Seq<char>, m: int)
    requires
        all_digits(s),
        0 <= m <= s.len(),
    ensures
        dec_val(s) >= dec_val(s.take(m)),
        dec_val(s) >= 0,
    decreases s.len(),
{
    if s.len() == 0 {
    } else {
        assert(all_digits(s.drop_last()));
        lemma_dec_val_prefix(s.drop_last(), if m < s.len() {
            m
        } else {
            s.len() as int - 1
        });
        if m == s.len() {
            assert(s.take(m) =~= s);
        } else {
            assert(s.take(m) =~= s.drop_last().take(m));
        }
    }
}

/// Read an unsigned 64-bit number from decimal text: an optional plus sign
/// and then digits. `None` exactly when the text is not such a number or
/// its value does not fit.
pub fn parse_u64(s: &str) -> (parsed: Option<u64>)
    ensures
        match parsed {
            Some(v) => valid_u64_str(s@) && v == dec_val(u64_body(s@)),
            None => !valid_u64_str(s@),
        },
{
    let n = s.unicode_len();
    let mut i: usize = 0;
    if n > 0 && s.get_char(0) == '+' {
        i = 1;
    }
    if i == n {
        return None;
    }
    let ghost body = u64_body(s@);
    let ghost start = i as int;
    proof {
        assert(body =~= s@.skip(start));
    }
    let mut acc: u64 = 0;
    let mut j: usize = i;
    while j < n
        invariant
            start <= j <= n,
            n == s@.len(),
            0 < n,
            start == 0 || start == 1,
            start == 1 ==> s@[0] == '+',
            start < n,
            body == u64_body(s@),
            body == s@.skip(start),
            all_digits(body.take(j - start)),
            acc == dec_val(body.take(j - start)),
        decreases n - j,
    {
        let c = s.get_char(j);
        if !(c >= '0' && c <= '9') {
            proof {
                assert(body[j - start] == s@[j as int]);
                assert(!all_digits(body));
            }
            return None;
        }
        let d: u64 = (c as u32 - '0' as u32) as u64;
        let ghost taken = body.take(j - start + 1);
        proof {
            assert(taken.drop_last() =~= body.take(j - start));
            assert(taken.last() == s@[j as int]);
            assert(all_digits(taken));
        }
        if acc > (u64::MAX - d) / 10 {
            proof {
                assert(dec_val(taken) > u64::MAX) by (nonlinear_arith)
                    requires
                        dec_val(taken) == acc * 10 + d,
                        acc > (u64::MAX - d) / 10,
                        0 <= d <= 9,
                        acc <= u64::MAX,
                ;
                if valid_u64_str(s@) {
                    lemma_dec_val_prefix(body, j - start + 1);
                }
            }
            return None;
        }
        proof {
            assert(acc * 10 + d <= u64::MAX) by (nonlinear_arith)
                requires
                    acc <= (u64::MAX - d) / 10,
                    0 <= d <= 9,
                    0 <= acc,
            ;
        }
        acc = acc * 10 + d;
        j += 1;
    }
    proof {
        assert(body.take(n - start) =~= body);
    }
    Some(acc)
}

/// There is no lowercase mapping here: the text a lowercasing of `s` yields
/// is only given this name, and the one fact stated of it below.
pub uninterp spec fn lower_of(s: Seq<char>) -> Seq<char>;

/// Relies on `str::to_lowercase`: the lowercase form of the text, a
/// function of the characters alone; empty text stays empty.
#[verifier::external_body]
fn lowercase(s: &str) -> (lowered: String)
    ensures
        lowered@ == lower_of(s@),
        s@.len() == 0 ==> lowered@.len() == 0,
{
    s.to_lowercase()
}

/// One record: a country's counted cases and deaths in one week.
pub struct Element {
    /// The country's name, in lowercase.
    pub country: String,
    /// The week, written `yyyy-ww`.
    pub year_week: String,
    /// The cases counted in that week.
    pub cases: u64,
    /// The deaths counted in that week.
    pub deaths: u64,
}

impl Element {
    /// Read a record from `country;year-week;cases;deaths`, the parts
    /// trimmed of surrounding blanks and the country lowercased. Fails
    /// exactly when there are not four parts, the week is not seven
    /// characters long, or a count is not an unsigned 64-bit number.
    pub fn from_str(s: &str) -> (result: Result<Element, String>)
        ensures
            split_semi(trim_spec(s@)).len() != 4 ==> result is Err,
            split_semi(trim_spec(s@)).len() == 4 ==> {
                let parts = split_semi(trim_spec(s@));
                let yw = trim_spec(parts[1]);
                let cs = trim_spec(parts[2]);
                let ds = trim_spec(parts[3]);
                if yw.len() != 7 || !valid_u64_str(cs) || !valid_u64_str(ds) {
                    result is Err
                } else {
                    result matches Ok(element) && element.country@ == lower_of(
                        trim_spec(parts[0]),
                    ) && element.year_week@ == yw && element.cases == dec_val(u64_body(cs))
                        && element.deaths == dec_val(u64_body(ds))
                }
            },
    {
        let trimmed = trim(s);
        let ghost all_parts = split_semi(trimmed@);
        let mut parts: Vec<&str> = Vec::new();
        let mut rem: &str = trimmed;
        loop
            invariant_except_break
                all_parts == split_semi(trimmed@),
                all_parts == parts_raw(parts@, all_parts) + split_semi(rem@),
                parts@.len() + split_semi(rem@).len() == all_parts.len(),
                forall|m: int|
                    0 <= m < parts@.len() ==> parts@[m]@ == trim_spec(#[trigger] all_parts[m]),
            ensures
                all_parts == split_semi(trimmed@),
                parts@.len() == all_parts.len(),
                forall|m: int|
                    0 <= m < parts@.len() ==> parts@[m]@ == trim_spec(#[trigger] all_parts[m]),
            decreases rem@.len(),
        {
            let ghost done = parts@.len() as int;
            let ghost k = find_char(rem@, ';');
            let (piece, rest) = take_until(rem, ';');
            proof {
                lemma_find_char(rem@, ';');
            }
            parts.push(trim(piece));
            match skip_next(rest, ';') {
                Some(r2) => {
                    proof {
                        if k == rem@.len() {
                            assert(rest@.len() == 0);
                            assert(false);
                        }
                        assert(r2@ == rem@.skip(k + 1));
                        assert(split_semi(rem@) == seq![rem@.take(k)] + split_semi(r2@));
                        assert(all_parts[done] == rem@.take(k));
                    }
                    rem = r2;
                },
                None => {
                    proof {
                        if k < rem@.len() {
                            assert(rest@[0] == rem@[k]);
                            assert(false);
                        }
                        assert(rem@.take(k) =~= rem@);
                        assert(split_semi(rem@) == seq![rem@]);
                        assert(all_parts[done] == rem@);
                    }
                    break ;
                },
            }
        }

        if parts.len() != 4 {
            return Err(String::from_str("Wrong number of parts"));
        }
        let year_week = parts[1];
        if year_week.unicode_len() != 7 {
            return Err(String::from_str("Wrong len of year week"));
        }
        let cases = match parse_u64(parts[2]) {
            None => {
                return Err(String::from_str("Cannot parse cases as u64"));
            },
            Some(v) => v,
        };
        let deaths = match parse_u64(parts[3]) {
            None => {
                return Err(String::from_str("Cannot parse deaths as u64"));
            },
            Some(v) => v,
        };
        let country = lowercase(parts[0]);
        Ok(
            Element {
                country,
                year_week: String::from_str(year_week),
                cases,
                deaths,
            },
        )
    }
}

/// The raw parts a list of trimmed parts came from: the prefix of `raw` of
/// the same length.
pub open spec fn parts_raw(ps: Seq<&str>, raw: Seq<Seq<char>>) -> Seq<Seq<char>> {
    raw.take(ps.len() as int)
}

impl Clone for Element {
    /// A copy of the record, field for field.
    fn clone(&self) -> (cloned: Self)
        ensures
            cloned == *self,
    {
        Element {
            country: self.country.clone(),
            year_week: self.year_week.clone(),
            cases: self.cases,
            deaths: self.deaths,
        }
    }
}

} // verus!
