//! The statement import pipeline: rows stream through a schema to become
//! expense records, new records are deduplicated against the most recent
//! stored transactions, and the survivors are ordered for persistence.

use crate::datetime::{civil_in_range, spec_date_chars, spec_time_chars, Civil};
use crate::error::ImportError;
use crate::expense::{spec_is_duplicate, Expense, ExpenseFields, LatestExpenses};
use crate::record_mapping::{
    spec_amount_outcome, spec_mapping_error_ok, AmountOutcome, ImportResult, RecordMapping,
    SEPARATOR,
};
use crate::text::{
    append_decimal, dec_chars, join_fields, lemma_str_cmp_antisym, lemma_str_cmp_eq, lemma_str_cmp_trans_le,
    str_cmp,
};
use crate::ID;
use vstd::prelude::*;

verus! {

// ---------------------------------------------------------------------------
// Reading rows
// ---------------------------------------------------------------------------

/// What the csv reader yields for given text: the rows, each a sequence
/// of fields, or nothing when the text is not well-formed tabular data.
pub uninterp spec fn csv_rows(s: Seq<char>) -> Option<Seq<Seq<Seq<char>>>>;

/// Relies on csv's Reader, configured with no header row and rows of
/// arbitrary width: it parses comma-separated text into rows of fields,
/// or fails on a structurally malformed row.
#[verifier::external_body]
pub(crate) fn parse_csv_rows(data: &str) -> (r: Result<Vec<Vec<String>>, ()>)
    ensures
        r matches Ok(rows) ==> csv_rows(data@) == Some(rows.deep_view()),
        r is Err ==> csv_rows(data@) is None,
{
    let mut reader = csv::ReaderBuilder::new().has_headers(false).flexible(true).from_reader(
        data.as_bytes(),
    );
    let mut rows: Vec<Vec<String>> = Vec::new();
    for record in reader.records() {
        match record {
            Ok(rec) => rows.push(rec.iter().map(|f| f.to_string()).collect()),
            Err(_) => return Err(()),
        }
    }
    Ok(rows)
}

/// What a successful mapping of one row promises about the record it
/// produced: the account is the one given, the date and time are
/// display-zone renderings of in-range civil values, the description is
/// the configured column verbatim, the amount is exactly what the amount
/// strategy yields, and `raw_csv` is the row joined with the private
/// separator.
pub open spec fn row_maps_to(
    mapping: RecordMapping,
    row: Seq<Seq<char>>,
    account_id: ID,
    exp: ExpenseFields,
) -> bool {
    &&& exp.account_id == account_id
    &&& exists|c: Civil| civil_in_range(c) && exp.transaction_date@ == #[trigger] spec_date_chars(c)
    &&& mapping.transaction_time is Empty ==> exp.transaction_time is None
    &&& (exp.transaction_time matches Some(t) ==> exists|c: Civil|
        civil_in_range(c) && t@ == #[trigger] spec_time_chars(c))
    &&& mapping.description->col < row.len()
    &&& exp.description@ == row[mapping.description->col as int]
    &&& spec_amount_outcome(mapping.amount, row) == AmountOutcome::Value(exp.amount.cents as int)
    &&& exp.raw_csv matches Some(rc) && rc@ == join_fields(row, SEPARATOR)
}

/// The strictly increasing positions of the rows that were kept.
pub open spec fn kept_indices_ok(kept: Seq<int>, nrows: int) -> bool {
    &&& forall|a: int| 0 <= a < kept.len() ==> 0 <= #[trigger] kept[a] < nrows
    &&& forall|a: int, b: int| 0 <= a < b < kept.len() ==> kept[a] < kept[b]
}

/// A successful import maps the kept rows, in file order, one record
/// each, and every row not kept was an intentional skip of the amount
/// strategy.
pub open spec fn rows_import_ok(
    mapping: RecordMapping,
    rows: Seq<Seq<Seq<char>>>,
    account_id: ID,
    kept: Seq<int>,
    out: Seq<ExpenseFields>,
) -> bool {
    &&& kept_indices_ok(kept, rows.len() as int)
    &&& out.len() == kept.len()
    &&& forall|a: int|
        0 <= a < kept.len() ==> row_maps_to(mapping, rows[kept[a]], account_id, #[trigger] out[a])
    &&& forall|j: int|
        0 <= j < rows.len() && !kept.contains(j) ==> spec_amount_outcome(
            mapping.amount,
            #[trigger] rows[j],
        ) is SkipRow
}

/// A successful import of the given text yields exactly the kept rows'
/// mappings, in file order, with every unkept row an intentional skip.
pub open spec fn read_ok(
    mapping: RecordMapping,
    data: Seq<char>,
    account_id: ID,
    out: Seq<ExpenseFields>,
) -> bool {
    exists|kept: Seq<int>|
        rows_import_ok(mapping, csv_rows(data)->Some_0, account_id, kept, out)
}

/// The message of an import aborted by a failing row: the extractor's
/// reason followed by the 0-based row index.
pub open spec fn abort_message(reason: Seq<char>, row: int) -> Seq<char> {
    reason + " in row "@ + dec_chars(row as nat)
}

/// The import was aborted by a row of the parsed statement: the error
/// message carries the 0-based index of a row whose mapping can report
/// the named reason — one of the stage messages of the fixed extractor
/// order, naming that row's own content — and every row before it imports
/// cleanly (each mapped or intentionally skipped).
pub open spec fn aborted_in_row(
    mapping: RecordMapping,
    account_id: ID,
    data: Seq<char>,
    e: ImportError,
) -> bool {
    exists|reason: Seq<char>, j: int, kept: Seq<int>, out: Seq<ExpenseFields>|
        {
            &&& 0 <= j < csv_rows(data)->Some_0.len()
            &&& e.message@ == abort_message(reason, j)
            &&& spec_mapping_error_ok(mapping, csv_rows(data)->Some_0[j], reason)
            &&& rows_import_ok(mapping, csv_rows(data)->Some_0.take(j), account_id, kept, out)
        }
}

/// Streams the tabular text row by row through the schema. Text that is
/// not well-formed tabular data fails with the distinct malformed-row
/// message; an extraction failure aborts the whole import with a message
/// naming the 0-based row; a skipped row is dropped silently; text that
/// parses to no rows at all succeeds with no records; on success the
/// returned records are the kept rows' mappings in file order.
pub fn read_expenses(account_id: ID, data: &str, mapping: &RecordMapping) -> (r: Result<
    Vec<ExpenseFields>,
    ImportError,
>)
    ensures
        csv_rows(data@) is None ==> (r matches Err(e) && e.message@ == "Malformed row in statement."@),
        csv_rows(data@) matches Some(rows) && rows.len() == 0 ==> (r matches Ok(v) && v@.len()
            == 0),
        r matches Ok(v) ==> csv_rows(data@) is Some && read_ok(*mapping, data@, account_id, v@),
        csv_rows(data@) is Some ==> (r matches Err(e) ==> aborted_in_row(
            *mapping,
            account_id,
            data@,
            e,
        )),
{
    let rows: Vec<Vec<String>> = match parse_csv_rows(data) {
        Ok(value) => value,
        Err(_) => {
            return Err(ImportError::new(String::from_str("Malformed row in statement.")));
        },
    };
    let mut expenses: Vec<ExpenseFields> = Vec::new();
    let ghost mut kept: Seq<int> = Seq::empty();
    let n: usize = rows.len();
    for row_index in 0..n
        invariant
            n == rows@.len(),
            csv_rows(data@) == Some(rows.deep_view()),
            kept_indices_ok(kept, row_index as int),
            expenses@.len() == kept.len(),
            expenses@.len() <= row_index,
            forall|a: int|
                0 <= a < kept.len() ==> row_maps_to(
                    *mapping,
                    rows.deep_view()[kept[a]],
                    account_id,
                    #[trigger] expenses@[a],
                ),
            forall|j: int|
                0 <= j < row_index && !kept.contains(j) ==> spec_amount_outcome(
                    mapping.amount,
                    #[trigger] rows.deep_view()[j],
                ) is SkipRow,
    {
        proof {
            assert(rows.deep_view()[row_index as int] == rows@[row_index as int].deep_view());
        }
        match mapping.record_to_expense(&rows[row_index], account_id) {
            Ok(value) => {
                expenses.push(value);
                proof {
                    let prev = kept;
                    kept = kept.push(row_index as int);
                    assert forall|j: int| prev.contains(j) implies kept.contains(j) by {
                        let a = choose|a: int| 0 <= a < prev.len() && prev[a] == j;
                        assert(kept[a] == j);
                    }
                    assert forall|j: int| kept.contains(j) && j != row_index implies prev.contains(
                        j,
                    ) by {
                        let a = choose|a: int| 0 <= a < kept.len() && kept[a] == j;
                        assert(a < prev.len() && prev[a] == j);
                    }
                    assert(kept[kept.len() - 1] == row_index as int);
                }
            },
            Err(ImportResult::Skip) => {
                proof {
                    assert forall|j: int|
                        0 <= j < row_index + 1 && !kept.contains(j) implies spec_amount_outcome(
                        mapping.amount,
                        #[trigger] rows.deep_view()[j],
                    ) is SkipRow by {
                        if j == row_index as int {
                            assert(spec_amount_outcome(
                                mapping.amount,
                                rows@[row_index as int].deep_view(),
                            ) is SkipRow);
                        }
                    }
                }
            },
            Err(ImportResult::Error { message }) => {
                let ghost reason = message@;
                let mut full = message;
                full.append(" in row ");
                append_decimal(&mut full, row_index as u64);
                let err = ImportError::new(full);
                proof {
                    let rs = rows.deep_view();
                    assert(csv_rows(data@)->Some_0 == rs);
                    assert(err.message@ == abort_message(reason, row_index as int));
                    assert(spec_mapping_error_ok(*mapping, rs[row_index as int], reason));
                    assert forall|a: int| 0 <= a < kept.len() implies row_maps_to(
                        *mapping,
                        rs.take(row_index as int)[kept[a]],
                        account_id,
                        #[trigger] expenses@[a],
                    ) by {
                        assert(rs.take(row_index as int)[kept[a]] == rs[kept[a]]);
                    }
                    assert forall|j: int|
                        0 <= j < rs.take(row_index as int).len() && !kept.contains(
                            j,
                        ) implies spec_amount_outcome(
                        mapping.amount,
                        #[trigger] rs.take(row_index as int)[j],
                    ) is SkipRow by {
                        assert(rs.take(row_index as int)[j] == rs[j]);
                        assert(spec_amount_outcome(mapping.amount, rs[j]) is SkipRow);
                    }
                    assert(rows_import_ok(
                        *mapping,
                        rs.take(row_index as int),
                        account_id,
                        kept,
                        expenses@,
                    ));
                    assert(aborted_in_row(*mapping, account_id, data@, err));
                }
                return Err(err);
            },
        }
    }
    proof {
        assert(csv_rows(data@)->Some_0 == rows.deep_view());
        assert(rows_import_ok(*mapping, csv_rows(data@)->Some_0, account_id, kept, expenses@));
        assert(read_ok(*mapping, data@, account_id, expenses@));
    }
    Ok(expenses)
}

// ---------------------------------------------------------------------------
// Deduplication
// ---------------------------------------------------------------------------

/// Index of the first record in `new` that duplicates `o`, or -1.
pub open spec fn spec_find_dup(new: Seq<ExpenseFields>, o: ExpenseFields) -> int
    decreases new.len(),
{
    if new.len() == 0 {
        -1
    } else if spec_is_duplicate(new[0], o) {
        0
    } else {
        let r = spec_find_dup(new.drop_first(), o);
        if r < 0 {
            -1
        } else {
            r + 1
        }
    }
}

proof fn lemma_find_dup_none(new: Seq<ExpenseFields>, o: ExpenseFields)
    requires
        forall|m: int| 0 <= m < new.len() ==> !spec_is_duplicate(#[trigger] new[m], o),
    ensures
        spec_find_dup(new, o) == -1,
    decreases new.len(),
{
    if new.len() != 0 {
        assert(forall|m: int|
            0 <= m < new.drop_first().len() ==> #[trigger] new.drop_first()[m] == new[m + 1]);
        lemma_find_dup_none(new.drop_first(), o);
    }
}

proof fn lemma_find_dup_at(new: Seq<ExpenseFields>, o: ExpenseFields, k: int)
    requires
        0 <= k < new.len(),
        spec_is_duplicate(new[k], o),
        forall|m: int| 0 <= m < k ==> !spec_is_duplicate(#[trigger] new[m], o),
    ensures
        spec_find_dup(new, o) == k,
    decreases new.len(),
{
    if k > 0 {
        assert(forall|m: int|
            0 <= m < new.drop_first().len() ==> #[trigger] new.drop_first()[m] == new[m + 1]);
        lemma_find_dup_at(new.drop_first(), o, k - 1);
    }
}

/// `new` with the first duplicate of `o` removed, if there is one.
pub open spec fn spec_remove_first_dup(new: Seq<ExpenseFields>, o: ExpenseFields) -> Seq<
    ExpenseFields,
> {
    let i = spec_find_dup(new, o);
    if i < 0 {
        new
    } else {
        new.remove(i)
    }
}

/// For each stored record in turn, the first fresh record that duplicates
/// it is removed — so as many copies survive as exceed the stored count.
pub open spec fn spec_remove_duplicates(
    new: Seq<ExpenseFields>,
    old_records: Seq<ExpenseFields>,
) -> Seq<ExpenseFields>
    decreases old_records.len(),
{
    if old_records.len() == 0 {
        new
    } else {
        spec_remove_duplicates(spec_remove_first_dup(new, old_records[0]), old_records.drop_first())
    }
}

/// Removes, for each stored boundary-date record, the first fresh record
/// that duplicates it.
pub fn remove_duplicates(new: Vec<ExpenseFields>, old_records: Vec<Expense>) -> (r: Vec<
    ExpenseFields,
>)
    ensures
        r@ == spec_remove_duplicates(new@, old_records@.map_values(|e: Expense| e.fields)),
{
    let ghost old_fields = old_records@.map_values(|e: Expense| e.fields);
    let mut new = new;
    let ghost orig = new@;
    let n_old: usize = old_records.len();
    proof {
        assert(old_fields.skip(0) =~= old_fields);
    }
    for k in 0..n_old
        invariant
            n_old == old_records@.len(),
            old_fields == old_records@.map_values(|e: Expense| e.fields),
            spec_remove_duplicates(orig, old_fields) == spec_remove_duplicates(
                new@,
                old_fields.skip(k as int),
            ),
    {
        let o = &old_records[k];
        let mut dupe_index: Option<usize> = None;
        let n_new: usize = new.len();
        let mut idx: usize = 0;
        while idx < n_new
            invariant_except_break
                dupe_index is None,
            invariant
                n_new == new@.len(),
                idx <= n_new,
                forall|m: int| 0 <= m < idx ==> !spec_is_duplicate(#[trigger] new@[m], o.fields),
            ensures
                dupe_index matches Some(d) ==> d < n_new && spec_find_dup(new@, o.fields)
                    == d as int,
                dupe_index is None ==> forall|m: int|
                    0 <= m < n_new ==> !spec_is_duplicate(#[trigger] new@[m], o.fields),
            decreases n_new - idx,
        {
            if crate::expense::is_duplicate(&new[idx], &o.fields) {
                dupe_index = Some(idx);
                proof {
                    lemma_find_dup_at(new@, o.fields, idx as int);
                }
                break;
            }
            idx = idx + 1;
        }
        proof {
            if dupe_index is None {
                lemma_find_dup_none(new@, o.fields);
            }
            assert(old_fields.skip(k as int)[0] == old_fields[k as int]);
            assert(old_fields[k as int] == o.fields);
            assert(old_fields.skip(k as int).drop_first() =~= old_fields.skip(k + 1));
        }
        match dupe_index {
            None => {
                proof {
                    assert(spec_remove_first_dup(new@, o.fields) == new@);
                }
            },
            Some(index) => {
                proof {
                    assert(spec_remove_first_dup(new@, o.fields) == new@.remove(index as int));
                }
                new.remove(index);
            },
        }
    }
    proof {
        assert(old_fields.skip(n_old as int) =~= Seq::<ExpenseFields>::empty());
    }
    new
}

/// The records dated strictly after the boundary date.
pub open spec fn date_after(boundary: Seq<char>) -> spec_fn(ExpenseFields) -> bool {
    |e: ExpenseFields| str_cmp(e.transaction_date@, boundary) > 0
}

/// The records dated exactly on the boundary date.
pub open spec fn date_equal(boundary: Seq<char>) -> spec_fn(ExpenseFields) -> bool {
    |e: ExpenseFields| str_cmp(e.transaction_date@, boundary) == 0
}

/// The three-way partition of freshly parsed records against the most
/// recent stored transaction date: strictly earlier records are dropped,
/// strictly later ones kept unconditionally, and records on the boundary
/// date kept only as far as they are not already stored.
pub open spec fn spec_dedup(
    new: Seq<ExpenseFields>,
    boundary: Seq<char>,
    old_records: Seq<ExpenseFields>,
) -> Seq<ExpenseFields> {
    new.filter(date_after(boundary)) + spec_remove_duplicates(
        new.filter(date_equal(boundary)),
        old_records,
    )
}

/// Filters freshly parsed records against the account's latest stored
/// transactions, exactly as `spec_dedup` prescribes.
pub fn deduplicate_expenses(expenses: Vec<ExpenseFields>, latest_logged_expenses: LatestExpenses)
    -> (r: Vec<ExpenseFields>)
    ensures
        r@ == spec_dedup(
            expenses@,
            latest_logged_expenses.date@,
            latest_logged_expenses.transactions@.map_values(|e: Expense| e.fields),
        ),
{
    let ghost boundary = latest_logged_expenses.date@;
    let ghost all = expenses@;
    let mut maybe_duplicates: Vec<ExpenseFields> = Vec::new();
    let mut new_expenses: Vec<ExpenseFields> = Vec::new();
    let mut remaining = expenses;
    let ghost mut done: int = 0;
    proof {
        reveal(Seq::filter);
        assert(all.take(0) =~= Seq::<ExpenseFields>::empty());
        assert(remaining@ =~= all.skip(0));
    }
    while remaining.len() > 0
        invariant
            0 <= done <= all.len(),
            remaining@ == all.skip(done),
            boundary == latest_logged_expenses.date@,
            new_expenses@ == all.take(done).filter(date_after(boundary)),
            maybe_duplicates@ == all.take(done).filter(date_equal(boundary)),
        decreases remaining@.len(),
    {
        let expense = remaining.remove(0);
        proof {
            assert(all.skip(done)[0] == all[done]);
            assert(all.take(done + 1) =~= all.take(done).push(all[done]));
            all.take(done).lemma_filter_push(expense, date_after(boundary));
            all.take(done).lemma_filter_push(expense, date_equal(boundary));
        }
        let cmp = crate::text::compare_str(
            expense.transaction_date.as_str(),
            latest_logged_expenses.date.as_str(),
        );
        if cmp == 0 {
            maybe_duplicates.push(expense);
        } else if cmp > 0 {
            new_expenses.push(expense);
        }
        proof {
            done = done + 1;
            assert(remaining@ =~= all.skip(done));
        }
    }
    proof {
        assert(all.take(done) =~= all);
    }
    let mut deduplicated = remove_duplicates(
        maybe_duplicates,
        latest_logged_expenses.transactions,
    );
    new_expenses.append(&mut deduplicated);
    new_expenses
}

// ---------------------------------------------------------------------------
// Ordering for persistence
// ---------------------------------------------------------------------------

/// Order on optional times: a record without a time sorts before any
/// record with one on the same date; times compare lexicographically.
pub open spec fn time_le(a: Option<String>, b: Option<String>) -> bool {
    match (a, b) {
        (Option::None, _) => true,
        (Option::Some(x), Option::None) => false,
        (Option::Some(x), Option::Some(y)) => str_cmp(x@, y@) <= 0,
    }
}

/// The persistence order: by transaction date, then by optional time.
pub open spec fn key_le(a: ExpenseFields, b: ExpenseFields) -> bool {
    ||| str_cmp(a.transaction_date@, b.transaction_date@) < 0
    ||| (str_cmp(a.transaction_date@, b.transaction_date@) == 0 && time_le(
        a.transaction_time,
        b.transaction_time,
    ))
}

pub open spec fn sorted_for_persistence(s: Seq<ExpenseFields>) -> bool {
    forall|i: int, j: int| 0 <= i < j < s.len() ==> key_le(#[trigger] s[i], #[trigger] s[j])
}

/// One record placed into an already ordered run: after every record that
/// sorts no later, before the first that sorts strictly later — so records
/// with equal keys keep their arrival order.
pub open spec fn spec_insert_sorted(x: ExpenseFields, s: Seq<ExpenseFields>) -> Seq<ExpenseFields>
    decreases s.len(),
{
    if s.len() == 0 {
        seq![x]
    } else if key_le(s[0], x) {
        seq![s[0]] + spec_insert_sorted(x, s.drop_first())
    } else {
        seq![x] + s
    }
}

/// The stable ordering of the records by (date, time): each record in
/// turn is placed after all earlier-arrived records that sort no later.
pub open spec fn spec_sort_expenses(s: Seq<ExpenseFields>) -> Seq<ExpenseFields>
    decreases s.len(),
{
    if s.len() == 0 {
        Seq::empty()
    } else {
        spec_insert_sorted(s.last(), spec_sort_expenses(s.drop_last()))
    }
}

proof fn lemma_insert_sorted_at(x: ExpenseFields, s: Seq<ExpenseFields>, pos: int)
    requires
        0 <= pos <= s.len(),
        forall|m: int| 0 <= m < pos ==> key_le(#[trigger] s[m], x),
        pos < s.len() ==> !key_le(s[pos], x),
    ensures
        spec_insert_sorted(x, s) == s.insert(pos, x),
    decreases s.len(),
{
    if s.len() == 0 {
        assert(s.insert(0, x) =~= seq![x]);
    } else if pos == 0 {
        assert(s.insert(0, x) =~= seq![x] + s);
    } else {
        assert(forall|m: int|
            0 <= m < pos - 1 ==> #[trigger] s.drop_first()[m] == s[m + 1]);
        lemma_insert_sorted_at(x, s.drop_first(), pos - 1);
        assert(s.insert(pos, x) =~= seq![s[0]] + s.drop_first().insert(pos - 1, x));
    }
}

proof fn lemma_key_le_total(a: ExpenseFields, b: ExpenseFields)
    ensures
        key_le(a, b) || key_le(b, a),
{
    lemma_str_cmp_antisym(a.transaction_date@, b.transaction_date@);
    match (a.transaction_time, b.transaction_time) {
        (Option::Some(x), Option::Some(y)) => lemma_str_cmp_antisym(x@, y@),
        _ => {},
    }
}

proof fn lemma_key_le_trans(a: ExpenseFields, b: ExpenseFields, c: ExpenseFields)
    requires
        key_le(a, b),
        key_le(b, c),
    ensures
        key_le(a, c),
{
    let da = a.transaction_date@;
    let db = b.transaction_date@;
    let dc = c.transaction_date@;
    lemma_str_cmp_eq(da, db);
    lemma_str_cmp_eq(db, dc);
    lemma_str_cmp_eq(da, dc);
    if str_cmp(da, db) < 0 && str_cmp(db, dc) < 0 {
        lemma_str_cmp_trans_le(da, db, dc);
        if str_cmp(da, dc) == 0 {
            lemma_str_cmp_antisym(db, dc);
            lemma_str_cmp_antisym(da, db);
        }
    } else if str_cmp(da, db) == 0 && str_cmp(db, dc) == 0 {
        match (a.transaction_time, b.transaction_time, c.transaction_time) {
            (Option::Some(x), Option::Some(y), Option::Some(z)) => {
                lemma_str_cmp_trans_le(x@, y@, z@);
            },
            _ => {},
        }
    }
}

fn key_le_exec(a: &ExpenseFields, b: &ExpenseFields) -> (r: bool)
    ensures
        r == key_le(*a, *b),
{
    let c = crate::text::compare_str(a.transaction_date.as_str(), b.transaction_date.as_str());
    if c < 0 {
        true
    } else if c > 0 {
        false
    } else {
        match (&a.transaction_time, &b.transaction_time) {
            (Option::None, _) => true,
            (Option::Some(_), Option::None) => false,
            (Option::Some(x), Option::Some(y)) => {
                crate::text::compare_str(x.as_str(), y.as_str()) <= 0
            },
        }
    }
}

/// Orders the surviving records by (transaction date, transaction time)
/// ascending, a record without a time before any with one on the same
/// date; the result is exactly the stable ordering of the input — a
/// permutation in which records with equal keys keep their input order.
pub fn sort_expenses(expenses: Vec<ExpenseFields>) -> (r: Vec<ExpenseFields>)
    ensures
        r@ == spec_sort_expenses(expenses@),
        r@.to_multiset() == expenses@.to_multiset(),
        sorted_for_persistence(r@),
{
    broadcast use vstd::seq_lib::group_to_multiset_ensures;

    let ghost all = expenses@;
    let mut remaining = expenses;
    let mut out: Vec<ExpenseFields> = Vec::new();
    let ghost mut done: int = 0;
    proof {
        assert(remaining@ =~= all.skip(0));
        assert(all.take(0) =~= out@);
        assert(out@ =~= spec_sort_expenses(all.take(0)));
    }
    while remaining.len() > 0
        invariant
            0 <= done <= all.len(),
            remaining@ == all.skip(done),
            out@ == spec_sort_expenses(all.take(done)),
            out@.to_multiset() == all.take(done).to_multiset(),
            sorted_for_persistence(out@),
        decreases remaining@.len(),
    {
        let x = remaining.remove(0);
        proof {
            assert(all.skip(done)[0] == all[done]);
            assert(all.take(done + 1) =~= all.take(done).push(all[done]));
        }
        let n_out: usize = out.len();
        let mut pos: usize = 0;
        loop
            invariant
                pos <= n_out,
                n_out == out@.len(),
                forall|m: int| 0 <= m < pos ==> key_le(#[trigger] out@[m], x),
            ensures
                pos <= n_out,
                forall|m: int| 0 <= m < pos ==> key_le(#[trigger] out@[m], x),
                pos < n_out ==> !key_le(out@[pos as int], x),
            decreases n_out - pos,
        {
            if pos == n_out {
                break;
            }
            if !key_le_exec(&out[pos], &x) {
                break;
            }
            pos = pos + 1;
        }
        let ghost prev = out@;
        proof {
            assert forall|m: int| pos <= m < prev.len() implies key_le(x, #[trigger] prev[m]) by {
                lemma_key_le_total(prev[pos as int], x);
                if m > pos {
                    lemma_key_le_trans(x, prev[pos as int], prev[m]);
                }
            }
        }
        out.insert(pos, x);
        proof {
            assert(out@ == prev.insert(pos as int, x));
            lemma_insert_sorted_at(x, prev, pos as int);
            assert(all.take(done + 1).drop_last() =~= all.take(done));
            assert(all.take(done + 1).last() == x);
            assert(out@ == spec_sort_expenses(all.take(done + 1)));
            vstd::seq_lib::to_multiset_insert(prev, pos as int, x);
            vstd::seq_lib::to_multiset_build(all.take(done), x);
            assert forall|i: int, j: int|
                0 <= i < j < out@.len() implies key_le(#[trigger] out@[i], #[trigger] out@[j]) by {
                assert(forall|m: int|
                    0 <= m < pos ==> #[trigger] out@[m] == prev[m]);
                assert(out@[pos as int] == x);
                assert(forall|m: int|
                    pos < m < out@.len() ==> #[trigger] out@[m] == prev[m - 1]);
            }
            done = done + 1;
            assert(remaining@ =~= all.skip(done));
        }
    }
    proof {
        assert(all.take(done) =~= all);
    }
    out
}

/// Everything that happens to freshly parsed records before persistence:
/// deduplication against the account's latest stored transactions (all
/// records pass through unchanged when the account has never imported),
/// then ordering by date and time.
pub fn prepare_expenses(expenses: Vec<ExpenseFields>, latest: Option<LatestExpenses>) -> (r: Vec<
    ExpenseFields,
>)
    ensures
        sorted_for_persistence(r@),
        match latest {
            Option::None => r@ == spec_sort_expenses(expenses@),
            Option::Some(l) => r@ == spec_sort_expenses(
                spec_dedup(expenses@, l.date@, l.transactions@.map_values(|e: Expense| e.fields)),
            ),
        },
{
    let deduplicated = match latest {
        Some(latest_transactions) => deduplicate_expenses(expenses, latest_transactions),
        None => expenses,
    };
    sort_expenses(deduplicated)
}

// ---------------------------------------------------------------------------
// The partition law
// ---------------------------------------------------------------------------

proof fn lemma_seq_remove_contains(s: Seq<ExpenseFields>, i: int, x: ExpenseFields)
    requires
        0 <= i < s.len(),
        s.remove(i).contains(x),
    ensures
        s.contains(x),
{
    let k = choose|k: int| 0 <= k < s.remove(i).len() && s.remove(i)[k] == x;
    if k < i {
        assert(s[k] == x);
    } else {
        assert(s[k + 1] == x);
    }
}

proof fn lemma_find_dup_in_range(new: Seq<ExpenseFields>, o: ExpenseFields)
    ensures
        spec_find_dup(new, o) >= 0 ==> spec_find_dup(new, o) < new.len(),
    decreases new.len(),
{
    if new.len() != 0 && !spec_is_duplicate(new[0], o) {
        lemma_find_dup_in_range(new.drop_first(), o);
    }
}

/// Everything that survives the per-record removal pass was among the
/// fresh records to begin with.
proof fn lemma_remove_duplicates_contains(
    new: Seq<ExpenseFields>,
    old_records: Seq<ExpenseFields>,
    x: ExpenseFields,
)
    requires
        spec_remove_duplicates(new, old_records).contains(x),
    ensures
        new.contains(x),
    decreases old_records.len(),
{
    if old_records.len() > 0 {
        let new1 = spec_remove_first_dup(new, old_records[0]);
        lemma_remove_duplicates_contains(new1, old_records.drop_first(), x);
        let i = spec_find_dup(new, old_records[0]);
        if i >= 0 {
            lemma_find_dup_in_range(new, old_records[0]);
            lemma_seq_remove_contains(new, i, x);
        }
    }
}

/// Partitioning: every record the deduplication returns is dated on or
/// after the boundary date, and every fresh record dated strictly after
/// the boundary date is returned, regardless of content.
pub proof fn lemma_dedup_partitions(
    new: Seq<ExpenseFields>,
    boundary: Seq<char>,
    old_records: Seq<ExpenseFields>,
)
    ensures
        forall|k: int|
            0 <= k < spec_dedup(new, boundary, old_records).len() ==> str_cmp(
                (#[trigger] spec_dedup(new, boundary, old_records)[k]).transaction_date@,
                boundary,
            ) >= 0,
        forall|j: int|
            0 <= j < new.len() && str_cmp((#[trigger] new[j]).transaction_date@, boundary) > 0
                ==> spec_dedup(new, boundary, old_records).contains(new[j]),
{
    broadcast use vstd::seq_lib::group_filter_ensures;

    let gt = new.filter(date_after(boundary));
    let eq = new.filter(date_equal(boundary));
    let rest = spec_remove_duplicates(eq, old_records);
    let out = spec_dedup(new, boundary, old_records);
    assert(out == gt + rest);
    assert forall|k: int|
        0 <= k < out.len() implies str_cmp(
        (#[trigger] out[k]).transaction_date@,
        boundary,
    ) >= 0 by {
        if k < gt.len() {
            assert(out[k] == gt[k]);
            new.lemma_filter_pred(date_after(boundary), k);
        } else {
            assert(out[k] == rest[k - gt.len()]);
            assert(rest.contains(rest[k - gt.len()]));
            lemma_remove_duplicates_contains(eq, old_records, rest[k - gt.len()]);
            let m = choose|m: int| 0 <= m < eq.len() && eq[m] == rest[k - gt.len()];
            new.lemma_filter_pred(date_equal(boundary), m);
        }
    }
    assert forall|j: int|
        0 <= j < new.len() && str_cmp((#[trigger] new[j]).transaction_date@, boundary)
            > 0 implies out.contains(new[j]) by {
        new.lemma_filter_contains(date_after(boundary), j);
        let m = choose|m: int| 0 <= m < gt.len() && gt[m] == new[j];
        assert(out[m] == gt[m]);
    }
}

} // verus!
