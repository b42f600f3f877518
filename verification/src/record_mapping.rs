//! The per-account statement schema: one extraction strategy per output
//! field, applied to a parsed tabular row to produce a canonical expense
//! record, plus the row codec that preserves the original row for audit.

use crate::datetime::{
    civil_in_range, spec_date_chars, spec_time_chars, to_local_date, to_local_time, Civil, TZ,
};
use crate::expense::{Amount, ExpenseFields};
use crate::text::{
    all_digits, append_decimal, contains_seq, contains_substring, dec_chars, digit_val,
    digits_val, first_index_of, is_digit, join_fields, lemma_digits_val_bound,
    lemma_first_index_at, lemma_first_index_props, lemma_join_snoc, pow10, push_char,
    split_fields, lemma_join_split_roundtrip,
};
use crate::ID;
use vstd::prelude::*;

verus! {

/// The private separator used to rejoin a row's fields into `raw_csv`: a
/// character that does not occur in normal field text, so the original
/// row can be reconstructed by splitting on it.
pub const SEPARATOR: char = '\u{241F}';

/// Zero-based index of a column in a parsed tabular row.
pub type ColID = usize;

/// The per-row control signal of the import pipeline: `Skip` excludes the
/// row on purpose; `Error` aborts the whole import.
#[derive(Debug)]
pub enum ImportResult {
    Skip,
    Error { message: String },
}

/// Strategy for the transaction date of a row.
#[derive(Debug)]
pub enum DateField {
    FromColumn { col: ColID, tz: TZ },
}

/// Strategy for the optional transaction time of a row.
#[derive(Debug)]
pub enum TimeField {
    FromColumn { col: ColID, tz: TZ },
    Empty,
}

/// Strategy for the signed amount of a row: a single column (with an
/// optional substring that marks the row as not a transaction), or a
/// credit column and a debit column of which the non-empty one counts.
#[derive(Debug)]
pub enum AmountField {
    FromColumn { col: ColID, invert: bool, skip_pattern: Option<String> },
    FromCreditDebitColumns { first: ColID, invert_first: bool, second: ColID, invert_second: bool },
}

/// Strategy for the free-text description of a row.
#[derive(Debug)]
pub enum TextField {
    FromColumn { col: ColID },
}

/// An ordered composition of one extractor per canonical expense field;
/// the persisted, user-edited contract between an export format and the
/// expense shape.
#[derive(Debug)]
pub struct RecordMapping {
    pub transaction_date: DateField,
    pub transaction_time: TimeField,
    pub description: TextField,
    pub amount: AmountField,
}

/// The message of a column-out-of-range failure: it names both the
/// requested 0-indexed column and the row's actual field count.
pub open spec fn col_error_chars(col: int, len: int) -> Seq<char> {
    "Requested 0-indexed column "@ + dec_chars(col as nat) + " but row only had "@ + dec_chars(
        len as nat,
    ) + " fields"@
}

/// The message of a failed date parse: it names the unparseable text.
pub open spec fn date_error_chars(field: Seq<char>) -> Seq<char> {
    "Could not parse '"@ + field + "' into a date"@
}

/// The message of a failed time parse: it names the unparseable text.
pub open spec fn time_error_chars(field: Seq<char>) -> Seq<char> {
    "Could not parse '"@ + field + "' into a time"@
}

/// The message of a failed amount parse: it names the unparseable text.
pub open spec fn amount_error_chars(field: Seq<char>) -> Seq<char> {
    "Could not parse '"@ + field + "' into an amount"@
}

/// Looks up a column of the row, reporting the requested and actual
/// column counts when the row is too short.
fn get_col<'a>(record: &'a Vec<String>, col: ColID) -> (r: Result<&'a String, ImportResult>)
    ensures
        col < record.len() ==> (r matches Ok(v) && v == record[col as int]),
        col >= record.len() ==> (r matches Err(ImportResult::Error { message }) && message@
            == col_error_chars(col as int, record.len() as int)),
{
    if col < record.len() {
        Ok(&record[col])
    } else {
        let mut message = String::from_str("Requested 0-indexed column ");
        append_decimal(&mut message, col as u64);
        message.append(" but row only had ");
        append_decimal(&mut message, record.len() as u64);
        message.append(" fields");
        proof {
            assert(message@ =~= col_error_chars(col as int, record@.len() as int));
        }
        Err(ImportResult::Error { message })
    }
}

/// The fields of a row joined with the private separator, ready to be
/// stored as `raw_csv`.
pub fn record_to_string(record: &Vec<String>) -> (r: String)
    ensures
        r@ == join_fields(record.deep_view(), SEPARATOR),
{
    let mut out = String::new();
    let n: usize = record.len();
    for i in 0..n
        invariant
            n == record.len(),
            out@ == join_fields(record.deep_view().take(i as int), SEPARATOR),
    {
        if i > 0 {
            push_char(&mut out, SEPARATOR);
        }
        out.append(record[i].as_str());
        proof {
            let dv = record.deep_view();
            assert(dv.take(i + 1) =~= dv.take(i as int).push(dv[i as int]));
            lemma_join_snoc(dv.take(i as int), dv[i as int], SEPARATOR);
            assert(dv[i as int] == record[i as int]@);
            assert(out@ =~= join_fields(dv.take(i + 1), SEPARATOR));
        }
    }
    proof {
        assert(record.deep_view().take(n as int) =~= record.deep_view());
    }
    out
}

/// Splitting a stored `raw_csv` value on the private separator gives back
/// exactly the fields of the original row, provided no field contained
/// the separator itself.
pub proof fn lemma_raw_csv_roundtrip(fields: Seq<Seq<char>>)
    requires
        fields.len() >= 1,
        forall|i: int| 0 <= i < fields.len() ==> !(#[trigger] fields[i]).contains(SEPARATOR),
    ensures
        split_fields(join_fields(fields, SEPARATOR), SEPARATOR) == fields,
{
    lemma_join_split_roundtrip(fields, SEPARATOR);
}

// ---------------------------------------------------------------------------
// Amounts
// ---------------------------------------------------------------------------

/// Whether, at comma position `j` and dot position `k`, the text shows a
/// digit run, a comma, a digit run, a dot and two digits — the one narrow
/// thousands-separator shape that is destripped before parsing.
pub open spec fn thousands_at(s: Seq<char>, j: int, k: int) -> bool {
    &&& 1 <= j
    &&& j + 1 < k
    &&& k + 3 <= s.len()
    &&& s[j] == ','
    &&& s[k] == '.'
    &&& is_digit(s[j - 1])
    &&& is_digit(s[k + 1])
    &&& is_digit(s[k + 2])
    &&& forall|m: int| j < m < k ==> is_digit(#[trigger] s[m])
}

pub open spec fn thousands_shape(s: Seq<char>) -> bool {
    exists|j: int, k: int| thousands_at(s, j, k)
}

/// The text with every comma removed when it shows the thousands shape,
/// and unchanged otherwise; values outside the narrow shape are not
/// destripped, a deliberate limitation of the heuristic.
pub open spec fn spec_strip(s: Seq<char>) -> Seq<char> {
    if thousands_shape(s) {
        s.filter(|c: char| c != ',')
    } else {
        s
    }
}

fn has_thousands_shape(s: &str) -> (r: bool)
    ensures
        r == thousands_shape(s@),
{
    let n: usize = s.unicode_len();
    if n < 5 {
        proof {
            assert(forall|j: int, k: int| !thousands_at(s@, j, k));
        }
        return false;
    }
    for j in 1..n
        invariant
            n == s@.len(),
            forall|j0: int, k: int| 0 <= j0 < j ==> !thousands_at(s@, j0, k),
    {
        if s.get_char(j) == ',' {
            let prev = s.get_char(j - 1);
            let pu: u32 = prev as u32;
            if 48 <= pu && pu <= 57 {
                // walk the digit run after the comma
                let mut m: usize = j + 1;
                while m < n
                    invariant
                        n == s@.len(),
                        j + 1 <= m <= n,
                        forall|q: int| j < q < m ==> is_digit(#[trigger] s@[q]),
                    ensures
                        j + 1 <= m <= n,
                        forall|q: int| j < q < m ==> is_digit(#[trigger] s@[q]),
                        m < n ==> !is_digit(s@[m as int]),
                    decreases n - m,
                {
                    let c = s.get_char(m);
                    let cu: u32 = c as u32;
                    if !(48 <= cu && cu <= 57) {
                        break;
                    }
                    m = m + 1;
                }
                if m > j + 1 && m <= n - 3 && s.get_char(m) == '.' {
                    let c1 = s.get_char(m + 1);
                    let c2 = s.get_char(m + 2);
                    let u1: u32 = c1 as u32;
                    let u2: u32 = c2 as u32;
                    if 48 <= u1 && u1 <= 57 && 48 <= u2 && u2 <= 57 {
                        proof {
                            assert(thousands_at(s@, j as int, m as int));
                        }
                        return true;
                    }
                }
                proof {
                    assert forall|k: int| !thousands_at(s@, j as int, k) by {
                        if thousands_at(s@, j as int, k) {
                            // the dot position must be the end of the digit run
                            if k < m {
                                assert(is_digit(s@[k]));
                            } else if k > m {
                                assert(m < n);
                                assert(is_digit(s@[m as int]));
                            }
                        }
                    }
                }
            } else {
                proof {
                    assert(forall|k: int| !thousands_at(s@, j as int, k));
                }
            }
        } else {
            proof {
                assert(forall|k: int| !thousands_at(s@, j as int, k));
            }
        }
    }
    proof {
        assert forall|j: int, k: int| !thousands_at(s@, j, k) by {
            if thousands_at(s@, j, k) {
                assert(1 <= j < n);
            }
        }
    }
    false
}

/// Removes the thousands separator only when the text matches the narrow
/// destripping shape; any other text is returned unchanged.
pub fn strip_thousands_separator(string: &str) -> (r: String)
    ensures
        r@ == spec_strip(string@),
{
    if has_thousands_shape(string) {
        let n: usize = string.unicode_len();
        let mut out = String::new();
        for i in 0..n
            invariant
                n == string@.len(),
                out@ == string@.take(i as int).filter(|c: char| c != ','),
        {
            let c = string.get_char(i);
            proof {
                assert(string@.take(i + 1) =~= string@.take(i as int).push(c));
                string@.take(i as int).lemma_filter_push(c, |c: char| c != ',');
            }
            if c != ',' {
                push_char(&mut out, c);
            }
        }
        proof {
            assert(string@.take(n as int) =~= string@);
        }
        out
    } else {
        String::from_str(string)
    }
}

/// The number of hundredths denoted by amount text: an optional minus
/// sign, one to fifteen integer digits, and optionally a dot followed by
/// one or two fraction digits. Anything else is no amount: under the
/// exact-cents money model, scientific notation, longer fractions and
/// non-finite values abort the import rather than being rounded.
pub open spec fn spec_amount_value(s: Seq<char>) -> Option<int> {
    if s.len() == 0 {
        Option::None
    } else {
        let neg = s[0] == '-';
        let body = if neg {
            s.drop_first()
        } else {
            s
        };
        let d = first_index_of(body, '.');
        if d < 0 {
            if 1 <= body.len() <= 15 && all_digits(body) {
                Option::Some(spec_signed(neg, digits_val(body) * 100))
            } else {
                Option::None
            }
        } else {
            let ip = body.take(d);
            let fp = body.skip(d + 1);
            if 1 <= ip.len() <= 15 && all_digits(ip) && 1 <= fp.len() <= 2 && all_digits(fp) {
                let frac = if fp.len() == 1 {
                    digits_val(fp) * 10
                } else {
                    digits_val(fp)
                };
                Option::Some(spec_signed(neg, digits_val(ip) * 100 + frac))
            } else {
                Option::None
            }
        }
    }
}

pub open spec fn spec_signed(neg: bool, v: int) -> int {
    if neg {
        -v
    } else {
        v
    }
}

/// Any parsed amount is below 10^17 hundredths in magnitude, so it and
/// its negation fit the machine representation.
pub proof fn lemma_amount_value_bound(s: Seq<char>)
    ensures
        spec_amount_value(s) matches Some(v) ==> -100_000_000_000_000_000 < v
            < 100_000_000_000_000_000,
{
    reveal_with_fuel(pow10, 17);
    if spec_amount_value(s) is Some {
        let neg = s[0] == '-';
        let body = if neg {
            s.drop_first()
        } else {
            s
        };
        let d = first_index_of(body, '.');
        if d < 0 {
            lemma_digits_val_bound(body);
            lemma_pow10_increases(body.len(), 15);
        } else {
            let ip = body.take(d);
            let fp = body.skip(d + 1);
            lemma_digits_val_bound(ip);
            lemma_pow10_increases(ip.len(), 15);
            lemma_digits_val_bound(fp);
            lemma_pow10_increases(fp.len(), 2);
        }
    }
}

/// The invert flag negates: a single-column amount strategy with the flag
/// set yields exactly the negation of what the same strategy yields with
/// it clear, on any row whose text parses.
pub proof fn lemma_invert_negates(
    col: ColID,
    skip_pattern: Option<String>,
    row: Seq<Seq<char>>,
    v: int,
)
    requires
        spec_amount_outcome(
            AmountField::FromColumn { col, invert: false, skip_pattern },
            row,
        ) == AmountOutcome::Value(v),
    ensures
        spec_amount_outcome(
            AmountField::FromColumn { col, invert: true, skip_pattern },
            row,
        ) == AmountOutcome::Value(-v),
{
}

/// A configured skip pattern that occurs anywhere in the raw text of the
/// amount column skips the row; no parse is attempted.
pub proof fn lemma_skip_pattern_skips(
    col: ColID,
    invert: bool,
    pattern: String,
    row: Seq<Seq<char>>,
)
    requires
        col < row.len(),
        contains_seq(row[col as int], pattern@),
    ensures
        spec_amount_outcome(
            AmountField::FromColumn { col, invert, skip_pattern: Some(pattern) },
            row,
        ) is SkipRow,
{
}

fn char_digit(c: char) -> (r: Option<u8>)
    ensures
        r matches Some(d) ==> is_digit(c) && d == digit_val(c),
        r is None ==> !is_digit(c),
{
    let u: u32 = c as u32;
    if 48 <= u && u <= 57 {
        Some((u - 48) as u8)
    } else {
        None
    }
}

/// End of the run of digit characters starting at `from`.
fn digit_run_end(s: &str, from: usize) -> (e: usize)
    requires
        from <= s@.len(),
    ensures
        from <= e <= s@.len(),
        forall|q: int| from <= q < e ==> is_digit(#[trigger] s@[q]),
        e < s@.len() ==> !is_digit(s@[e as int]),
{
    let n: usize = s.unicode_len();
    let mut e: usize = from;
    while e < n
        invariant
            n == s@.len(),
            from <= e <= n,
            forall|q: int| from <= q < e ==> is_digit(#[trigger] s@[q]),
        ensures
            from <= e <= n,
            forall|q: int| from <= q < e ==> is_digit(#[trigger] s@[q]),
            e < n ==> !is_digit(s@[e as int]),
        decreases n - e,
    {
        let c = s.get_char(e);
        let u: u32 = c as u32;
        if !(48 <= u && u <= 57) {
            break;
        }
        e = e + 1;
    }
    e
}

/// The number denoted by the digit run `s[from..to]`.
fn digits_value(s: &str, from: usize, to: usize) -> (v: u64)
    requires
        from <= to <= s@.len(),
        to - from <= 15,
        forall|q: int| from <= q < to ==> is_digit(#[trigger] s@[q]),
    ensures
        v == digits_val(s@.subrange(from as int, to as int)),
        v < 1_000_000_000_000_000,
{
    proof {
        reveal_with_fuel(pow10, 17);
    }
    let mut v: u64 = 0;
    let mut i: usize = from;
    while i < to
        invariant
            from <= i <= to <= s@.len(),
            to - from <= 15,
            forall|q: int| from <= q < to ==> is_digit(#[trigger] s@[q]),
            v == digits_val(s@.subrange(from as int, i as int)),
            v < pow10((i - from) as nat),
            pow10(15) == 1_000_000_000_000_000,
        decreases to - i,
    {
        let c = s.get_char(i);
        let d = match char_digit(c) {
            Some(d) => d,
            None => 0,  // unreachable: the run is all digits
        };
        proof {
            assert(is_digit(s@[i as int]));
            assert(s@.subrange(from as int, i + 1).drop_last() =~= s@.subrange(
                from as int,
                i as int,
            ));
            assert(s@.subrange(from as int, i + 1).last() == s@[i as int]);
            lemma_pow10_increases(((i - from) + 1) as nat, 15nat);
        }
        v = v * 10 + (d as u64);
        i = i + 1;
    }
    proof {
        lemma_pow10_increases((to - from) as nat, 15nat);
    }
    v
}

fn amount_parse_error(field: &str) -> (r: ImportResult)
    ensures
        r matches ImportResult::Error { message } && message@ == amount_error_chars(field@),
{
    let mut message = String::from_str("Could not parse '");
    message.append(field);
    message.append("' into an amount");
    proof {
        assert(message@ =~= amount_error_chars(field@));
    }
    ImportResult::Error { message }
}

impl AmountField {
    /// Parses amount text (after destripping) into hundredths, negating
    /// the value when `invert` is set. Succeeds exactly on the amount
    /// grammar of `spec_amount_value`.
    pub fn parse_from_str(field: &str, invert: bool) -> (r: Result<Amount, ImportResult>)
        ensures
            match spec_amount_value(spec_strip(field@)) {
                Option::Some(v) => r matches Ok(a) && a.cents == spec_signed(invert, v),
                Option::None => r matches Err(ImportResult::Error { message }) && message@
                    == amount_error_chars(field@),
            },
    {
        let stripped = strip_thousands_separator(field);
        let s = stripped.as_str();
        proof {
            lemma_amount_value_bound(s@);
        }
        let n: usize = s.unicode_len();
        if n == 0 {
            return Err(amount_parse_error(field));
        }
        let neg: bool = {
            let c0 = s.get_char(0);
            c0 == '-'
        };
        let start: usize = if neg {
            1
        } else {
            0
        };
        let ghost body = s@.skip(start as int);
        proof {
            if neg {
                assert(body =~= s@.drop_first());
            } else {
                assert(body =~= s@);
            }
        }
        // integer part: the digit run from `start`
        let e1 = digit_run_end(s, start);
        let count1: usize = e1 - start;
        proof {
            lemma_first_index_props(body, '.');
        }
        if count1 == 0 {
            proof {
                let d = first_index_of(body, '.');
                if d >= 0 {
                    assert(body.take(d).len() == d);
                    if d >= 1 {
                        assert(body.take(d)[0] == body[0]);
                        assert(!is_digit(body[0]));
                        assert(!all_digits(body.take(d)));
                    }
                }
            }
            return Err(amount_parse_error(field));
        }
        if count1 > 15 {
            proof {
                let d = first_index_of(body, '.');
                if d >= 0 {
                    // the dot lies beyond the 15 leading digits
                    assert(body[d] == '.');
                    assert(!is_digit(body[d]));
                    if d < count1 {
                        assert(is_digit(s@[start + d]));
                        assert(body[d] == s@[start + d]);
                    }
                    assert(body.take(d).len() > 15);
                }
            }
            return Err(amount_parse_error(field));
        }
        if e1 == n {
            // no fraction part
            proof {
                let d = first_index_of(body, '.');
                if d >= 0 {
                    assert(body[d] == '.');
                    assert(body[d] == s@[start + d]);
                    assert(is_digit(s@[start + d]));
                }
                assert(all_digits(body)) by {
                    assert(forall|q: int|
                        0 <= q < body.len() ==> body[q] == #[trigger] s@[start + q]);
                }
                assert(body =~= s@.subrange(start as int, e1 as int));
            }
            let v1 = digits_value(s, start, e1);
            let mag: i64 = (v1 as i64) * 100;
            let signed: i64 = if neg {
                -mag
            } else {
                mag
            };
            let cents: i64 = if invert {
                -signed
            } else {
                signed
            };
            return Ok(Amount { cents });
        }
        // a non-digit stops the run before the end: it must be the dot
        let dot = s.get_char(e1);
        if dot != '.' {
            proof {
                let d = first_index_of(body, '.');
                let stop = e1 - start;
                assert(body[stop] == s@[e1 as int]);
                if d < 0 {
                    assert(!all_digits(body));
                } else {
                    assert(body[d] == '.');
                    if d < stop {
                        assert(is_digit(s@[start + d]));
                        assert(body[d] == s@[start + d]);
                    }
                    assert(d > stop);
                    assert(body.take(d)[stop] == body[stop]);
                    assert(!all_digits(body.take(d)));
                }
            }
            return Err(amount_parse_error(field));
        }
        proof {
            let stop = e1 - start;
            assert(body[stop] == s@[e1 as int]);
            assert forall|q: int| 0 <= q < stop implies body[q] != '.' by {
                assert(body[q] == s@[start + q]);
                assert(is_digit(s@[start + q]));
            }
            lemma_first_index_at(body, '.', stop);
        }
        // fraction part: one or two digits, then the end of the text
        let fstart: usize = e1 + 1;
        let e2 = digit_run_end(s, fstart);
        let count2: usize = e2 - fstart;
        let ghost d = first_index_of(body, '.');
        let ghost fp = body.skip(d + 1);
        proof {
            assert(fp =~= s@.subrange(fstart as int, n as int));
        }
        if e2 < n || count2 == 0 || count2 > 2 {
            proof {
                if e2 < n && count2 <= 2 {
                    assert(fp[e2 - fstart] == s@[e2 as int]);
                    assert(!all_digits(fp));
                }
                if e2 == n {
                    assert(fp.len() == count2);
                }
            }
            return Err(amount_parse_error(field));
        }
        proof {
            assert(fp.len() == count2);
            assert(all_digits(fp)) by {
                assert(forall|q: int|
                    0 <= q < fp.len() ==> fp[q] == #[trigger] s@[fstart + q]);
            }
            assert(fp =~= s@.subrange(fstart as int, e2 as int));
            let ip = body.take(d);
            assert(ip =~= s@.subrange(start as int, e1 as int));
            assert(all_digits(ip)) by {
                assert(forall|q: int|
                    0 <= q < ip.len() ==> ip[q] == #[trigger] s@[start + q]);
            }
        }
        let v1 = digits_value(s, start, e1);
        let f1 = digits_value(s, fstart, e2);
        let frac: u64 = if count2 == 1 {
            f1 * 10
        } else {
            f1
        };
        let mag: i64 = (v1 as i64) * 100 + (frac as i64);
        proof {
            reveal_with_fuel(pow10, 17);
            lemma_digits_val_bound(s@.subrange(fstart as int, e2 as int));
            lemma_pow10_increases((e2 - fstart) as nat, 2nat);
        }
        let signed: i64 = if neg {
            -mag
        } else {
            mag
        };
        let cents: i64 = if invert {
            -signed
        } else {
            signed
        };
        Ok(Amount { cents })
    }
}

/// The outcome of extracting an amount from a row, as a mathematical
/// value: a number of hundredths, an intentional skip, or a failure.
pub enum AmountOutcome {
    Value(int),
    SkipRow,
    Fail,
}

/// Exactly which outcome an amount strategy yields on a row: a missing
/// column or unparseable text fails; a configured skip pattern occurring
/// in the raw text skips the row before any parse is attempted; otherwise
/// the destripped text is parsed and the variant's invert flag applied.
/// For the credit/debit pair the first column wins when both are
/// non-empty.
pub open spec fn spec_amount_outcome(af: AmountField, row: Seq<Seq<char>>) -> AmountOutcome {
    match af {
        AmountField::FromColumn { col, invert, skip_pattern } => {
            if col >= row.len() {
                AmountOutcome::Fail
            } else {
                let field = row[col as int];
                if match skip_pattern {
                    Option::Some(p) => contains_seq(field, p@),
                    Option::None => false,
                } {
                    AmountOutcome::SkipRow
                } else {
                    match spec_amount_value(spec_strip(field)) {
                        Option::Some(v) => AmountOutcome::Value(spec_signed(invert, v)),
                        Option::None => AmountOutcome::Fail,
                    }
                }
            }
        },
        AmountField::FromCreditDebitColumns { first, invert_first, second, invert_second } => {
            if first >= row.len() || second >= row.len() {
                AmountOutcome::Fail
            } else {
                let field = if row[first as int].len() != 0 {
                    row[first as int]
                } else {
                    row[second as int]
                };
                let invert = if row[first as int].len() != 0 {
                    invert_first
                } else {
                    invert_second
                };
                match spec_amount_value(spec_strip(field)) {
                    Option::Some(v) => AmountOutcome::Value(spec_signed(invert, v)),
                    Option::None => AmountOutcome::Fail,
                }
            }
        },
    }
}

/// The message a failing amount strategy reports: the column error when a
/// configured column is missing, else the parse error naming the raw text
/// of the column the strategy chose.
pub open spec fn amount_error_message(af: AmountField, row: Seq<Seq<char>>) -> Seq<char> {
    match af {
        AmountField::FromColumn { col, .. } => {
            if col >= row.len() {
                col_error_chars(col as int, row.len() as int)
            } else {
                amount_error_chars(row[col as int])
            }
        },
        AmountField::FromCreditDebitColumns { first, second, .. } => {
            if first >= row.len() {
                col_error_chars(first as int, row.len() as int)
            } else if second >= row.len() {
                col_error_chars(second as int, row.len() as int)
            } else if row[first as int].len() != 0 {
                amount_error_chars(row[first as int])
            } else {
                amount_error_chars(row[second as int])
            }
        },
    }
}

/// Every column the mapping is configured to read, other than the amount
/// strategy's own, lies within the row.
pub open spec fn mapping_columns_ok(m: RecordMapping, row: Seq<Seq<char>>) -> bool {
    &&& m.transaction_date->col < row.len()
    &&& (m.transaction_time is FromColumn ==> m.transaction_time->FromColumn_col < row.len())
    &&& m.description->col < row.len()
}

/// The messages a failing row mapping can report, in the fixed extractor
/// order: a stage only speaks once every earlier stage's column was in
/// range, and each message names either the missing column or the raw
/// text that would not parse.
pub open spec fn spec_mapping_error_ok(m: RecordMapping, row: Seq<Seq<char>>, msg: Seq<char>) -> bool {
    let dcol = m.transaction_date->col;
    let xcol = m.description->col;
    ||| (dcol >= row.len() && msg == col_error_chars(dcol as int, row.len() as int))
    ||| (dcol < row.len() && msg == date_error_chars(row[dcol as int]))
    ||| (dcol < row.len() && m.transaction_time is FromColumn && {
        let tcol = m.transaction_time->FromColumn_col;
        ||| (tcol >= row.len() && msg == col_error_chars(tcol as int, row.len() as int))
        ||| (tcol < row.len() && msg == time_error_chars(row[tcol as int]))
    })
    ||| (dcol < row.len() && (m.transaction_time is Empty || m.transaction_time->FromColumn_col
        < row.len()) && xcol >= row.len() && msg == col_error_chars(
        xcol as int,
        row.len() as int,
    ))
    ||| (mapping_columns_ok(m, row) && spec_amount_outcome(m.amount, row) is Fail && msg
        == amount_error_message(m.amount, row))
}

impl AmountField {
    /// Extracts the signed amount of the row, as `spec_amount_outcome`
    /// prescribes for this strategy.
    pub fn from_record(&self, record: &Vec<String>) -> (r: Result<Amount, ImportResult>)
        ensures
            match spec_amount_outcome(*self, record.deep_view()) {
                AmountOutcome::Value(v) => r matches Ok(a) && a.cents == v,
                AmountOutcome::SkipRow => r matches Err(e) && e is Skip,
                AmountOutcome::Fail => r matches Err(e) && e is Error,
            },
            r matches Err(ImportResult::Error { message }) ==> message@ == amount_error_message(
                *self,
                record.deep_view(),
            ),
    {
        proof {
            assert(record.deep_view().len() == record@.len());
        }
        match self {
            AmountField::FromColumn { col, invert, skip_pattern } => {
                let field = match get_col(record, *col) {
                    Ok(v) => v,
                    Err(e) => {
                        return Err(e);
                    },
                };
                proof {
                    assert(record.deep_view()[*col as int] == field@);
                }
                if let Option::Some(pattern) = skip_pattern {
                    if contains_substring(field.as_str(), pattern.as_str()) {
                        return Err(ImportResult::Skip);
                    }
                }
                AmountField::parse_from_str(field.as_str(), *invert)
            },
            AmountField::FromCreditDebitColumns { first, invert_first, second, invert_second } => {
                let first_col = match get_col(record, *first) {
                    Ok(v) => v,
                    Err(e) => {
                        return Err(e);
                    },
                };
                let second_col = match get_col(record, *second) {
                    Ok(v) => v,
                    Err(e) => {
                        return Err(e);
                    },
                };
                proof {
                    assert(record.deep_view()[*first as int] == first_col@);
                    assert(record.deep_view()[*second as int] == second_col@);
                }
                let (field, invert) = if !first_col.as_str().is_empty() {
                    (first_col, invert_first)
                } else {
                    (second_col, invert_second)
                };
                AmountField::parse_from_str(field.as_str(), *invert)
            },
        }
    }
}

impl DateField {
    /// Extracts the normalized transaction date of the row; a returned
    /// date is always the display-zone rendering of an in-range civil
    /// date, and failures abort rather than skip.
    pub fn from_record(&self, record: &Vec<String>) -> (r: Result<String, ImportResult>)
        ensures
            self->col >= record.len() ==> (r matches Err(ImportResult::Error { message })
                && message@ == col_error_chars(self->col as int, record.len() as int)),
            self->col < record.len() ==> (r matches Err(ImportResult::Error { message })
                ==> message@ == date_error_chars(record[self->col as int]@)),
            r matches Ok(s) ==> exists|c: Civil|
                civil_in_range(c) && s@ == #[trigger] spec_date_chars(c),
            r matches Err(e) ==> e is Error,
    {
        match self {
            DateField::FromColumn { col, tz } => {
                let field = match get_col(record, *col) {
                    Ok(v) => v,
                    Err(e) => {
                        return Err(e);
                    },
                };
                match to_local_date(field.as_str(), tz) {
                    Option::Some(value) => Ok(value),
                    Option::None => {
                        let mut message = String::from_str("Could not parse '");
                        message.append(field.as_str());
                        message.append("' into a date");
                        proof {
                            assert(message@ =~= date_error_chars(field@));
                        }
                        Err(ImportResult::Error { message })
                    },
                }
            },
        }
    }
}

impl TimeField {
    /// Extracts the normalized transaction time of the row, `None` for
    /// the `Empty` strategy; a returned time is always the display-zone
    /// rendering of an in-range civil time, and failures abort rather
    /// than skip.
    pub fn from_record(&self, record: &Vec<String>) -> (r: Result<Option<String>, ImportResult>)
        ensures
            self is Empty ==> (r matches Ok(t) && t is None),
            self is FromColumn && self->FromColumn_col >= record.len() ==> (r matches Err(
                ImportResult::Error { message },
            ) && message@ == col_error_chars(self->FromColumn_col as int, record.len() as int)),
            self is FromColumn && self->FromColumn_col < record.len() ==> (r matches Err(
                ImportResult::Error { message },
            ) ==> message@ == time_error_chars(record[self->FromColumn_col as int]@)),
            r matches Ok(Some(s)) ==> exists|c: Civil|
                civil_in_range(c) && s@ == #[trigger] spec_time_chars(c),
            r matches Err(e) ==> e is Error,
    {
        match self {
            TimeField::FromColumn { col, tz } => {
                let field = match get_col(record, *col) {
                    Ok(v) => v,
                    Err(e) => {
                        return Err(e);
                    },
                };
                match to_local_time(field.as_str(), tz) {
                    Option::Some(value) => Ok(Some(value)),
                    Option::None => {
                        let mut message = String::from_str("Could not parse '");
                        message.append(field.as_str());
                        message.append("' into a time");
                        proof {
                            assert(message@ =~= time_error_chars(field@));
                        }
                        Err(ImportResult::Error { message })
                    },
                }
            },
            TimeField::Empty => Ok(None),
        }
    }
}

impl TextField {
    /// Extracts the raw text of the configured column, verbatim.
    pub fn from_record(&self, record: &Vec<String>) -> (r: Result<String, ImportResult>)
        ensures
            self->col < record.len() ==> (r matches Ok(s) && s@ == record[self->col as int]@),
            self->col >= record.len() ==> (r matches Err(ImportResult::Error { message })
                && message@ == col_error_chars(self->col as int, record.len() as int)),
    {
        match self {
            TextField::FromColumn { col } => {
                let field = match get_col(record, *col) {
                    Ok(v) => v,
                    Err(e) => {
                        return Err(e);
                    },
                };
                Ok(field.clone())
            },
        }
    }
}

impl RecordMapping {
    /// Applies the four extractors to the row in the fixed order date,
    /// time, description, amount, short-circuiting on the first failure;
    /// on success the record carries the normalized date and time, the
    /// verbatim description, the exact parsed amount, and the original
    /// row joined with the private separator.
    pub fn record_to_expense(&self, record: &Vec<String>, account_id: ID) -> (r: Result<
        ExpenseFields,
        ImportResult,
    >)
        ensures
            r matches Ok(exp) ==> {
                &&& exp.account_id == account_id
                &&& exists|c: Civil|
                    civil_in_range(c) && exp.transaction_date@ == #[trigger] spec_date_chars(c)
                &&& self.transaction_time is Empty ==> exp.transaction_time is None
                &&& (exp.transaction_time matches Some(t) ==> exists|c: Civil|
                    civil_in_range(c) && t@ == #[trigger] spec_time_chars(c))
                &&& self.description->col < record.len()
                &&& exp.description@ == record[self.description->col as int]@
                &&& spec_amount_outcome(self.amount, record.deep_view())
                    == AmountOutcome::Value(exp.amount.cents as int)
                &&& exp.raw_csv matches Some(rc) && rc@ == join_fields(
                    record.deep_view(),
                    SEPARATOR,
                )
            },
            (r matches Err(e) && e is Skip) ==> mapping_columns_ok(*self, record.deep_view())
                && spec_amount_outcome(self.amount, record.deep_view()) is SkipRow,
            r matches Err(ImportResult::Error { message }) ==> spec_mapping_error_ok(
                *self,
                record.deep_view(),
                message@,
            ),
            self.transaction_date->col >= record.len() ==> (r matches Err(e) && e is Error),
    {
        proof {
            assert(record.deep_view().len() == record@.len());
            assert(forall|k: int|
                0 <= k < record@.len() ==> #[trigger] record.deep_view()[k] == record@[k]@);
        }
        let transaction_date = match self.transaction_date.from_record(record) {
            Ok(v) => v,
            Err(e) => {
                return Err(e);
            },
        };
        let transaction_time = match self.transaction_time.from_record(record) {
            Ok(v) => v,
            Err(e) => {
                return Err(e);
            },
        };
        let description = match self.description.from_record(record) {
            Ok(v) => v,
            Err(e) => {
                return Err(e);
            },
        };
        let amount = match self.amount.from_record(record) {
            Ok(v) => v,
            Err(e) => {
                return Err(e);
            },
        };
        let raw_csv = Some(record_to_string(record));
        Ok(
            ExpenseFields {
                account_id,
                transaction_date,
                transaction_time,
                description,
                amount,
                raw_csv,
            },
        )
    }
}

proof fn lemma_pow10_pos(n: nat)
    ensures
        pow10(n) >= 1,
    decreases n,
{
    if n > 0 {
        lemma_pow10_pos((n - 1) as nat);
    }
}

proof fn lemma_pow10_increases(a: nat, b: nat)
    requires
        a <= b,
    ensures
        pow10(a) <= pow10(b),
    decreases b,
{
    lemma_pow10_pos(a);
    if a < b {
        lemma_pow10_increases(a, (b - 1) as nat);
        lemma_pow10_pos((b - 1) as nat);
    }
}

} // verus!
