use arrow_array::cast::AsArray;
use arrow_array::{Array, ArrayRef, RecordBatch, StringArray};
use arrow_schema::{ArrowError, DataType, Field, Schema};
use std::sync::Arc;
use vstd::prelude::*;
use vstd::string::StringExecFns;

verus! {

/// A batch of columns as a facet's table takes and gives it.
#[verifier::external_body]
pub struct TextBatch {
    pub batch: RecordBatch,
}

#[verifier::external_type_specification]
#[verifier::external_body]
pub struct ExArrowError(ArrowError);

/// The text columns of a batch by their names: of the columns of one name the first, and
/// that only where it holds texts with 32-bit offsets. A column lists its texts row by row.
pub uninterp spec fn text_columns(batch: TextBatch) -> Map<Seq<char>, Seq<Seq<char>>>;

/// How many bytes a text takes when stored.
pub open spec fn byte_len(text: Seq<char>) -> nat {
    vstd::utf8::encode_utf8(text).len()
}

/// How many bytes the texts of a column take together.
pub open spec fn total_bytes(texts: Seq<Seq<char>>) -> nat
    decreases texts.len(),
{
    if texts.len() == 0 {
        0
    } else {
        total_bytes(texts.drop_last()) + byte_len(texts.last())
    }
}

/// The most bytes that the texts of one column may take together.
pub const COLUMN_BYTES: usize = 0x7fff_ffff;

/// Whether a batch can be made of these columns under these names: there is a column, each
/// has a name, and all are of one length.
pub open spec fn columns_fit(names: Seq<Seq<char>>, columns: Seq<Seq<Seq<char>>>) -> bool {
    &&& columns.len() > 0
    &&& names.len() == columns.len()
    &&& forall|c: int| 0 <= c < columns.len() ==> (#[trigger] columns[c]).len() == columns[0].len()
}

/// Whether no name before the one at `c` is the same.
pub open spec fn is_first_of_name(names: Seq<Seq<char>>, c: int) -> bool {
    forall|b: int| 0 <= b < c ==> #[trigger] names[b] != names[c]
}

/// `RecordBatch::num_rows`. Every column of a batch has as many entries as the batch has
/// rows.
#[verifier::external_body]
fn row_count(batch: &TextBatch) -> (n: usize)
    ensures
        forall|name: Seq<char>| #[trigger]
            text_columns(*batch).contains_key(name) ==> text_columns(*batch)[name].len() == n,
{
    batch.batch.num_rows()
}

/// Hands out the texts of the column that `RecordBatch::column_by_name` finds for `name`, row
/// by row as `value` gives them; nothing where there is no such column or `as_string_opt`
/// tells that it holds no texts with 32-bit offsets.
#[verifier::external_body]
fn text_column(batch: &TextBatch, name: &str) -> (r: Option<Vec<String>>)
    ensures
        match r {
            Some(texts) => text_columns(*batch).contains_key(name@) && texts.deep_view()
                == text_columns(*batch)[name@],
            None => !text_columns(*batch).contains_key(name@),
        },
{
    let column = batch.batch.column_by_name(name)?.as_string_opt::<i32>()?;
    Some((0..column.len()).map(|row| column.value(row).to_string()).collect())
}

/// Makes a batch with `RecordBatch::try_new`: for each name a field of texts that may not be
/// missing, for each column a `StringArray` of its texts. The batch is made exactly where the
/// columns fit; it then holds each column under its name, under a repeated name the first.
#[verifier::external_body]
fn text_batch(names: &Vec<String>, columns: Vec<Vec<String>>) -> (r: Result<TextBatch, ArrowError>)
    requires
        forall|c: int|
            0 <= c < columns.len() ==> total_bytes(#[trigger] columns.deep_view()[c]) <= COLUMN_BYTES,
    ensures
        r is Ok <==> columns_fit(names.deep_view(), columns.deep_view()),
        r matches Ok(batch) ==> forall|c: int|
            0 <= c < names.len() && is_first_of_name(names.deep_view(), c) ==> text_columns(
                batch,
            ).contains_key(#[trigger] names.deep_view()[c]) && text_columns(batch)[names.deep_view()[c]]
                == columns.deep_view()[c],
{
    let fields: Vec<Field> = names.iter().map(|n| Field::new(n, DataType::Utf8, false)).collect();
    let arrays = columns.into_iter().map(|c| Arc::new(StringArray::from(c)) as ArrayRef).collect();
    RecordBatch::try_new(Arc::new(Schema::new(fields)), arrays).map(|batch| TextBatch { batch })
}

/// A record as a facet's table holds it. The vector stands as the text that the table keeps
/// of it.
#[derive(Debug, Clone)]
pub struct StoredRecord {
    pub condition_name: String,
    pub text: String,
    pub vector: String,
}

/// What a `StoredRecord` says.
pub struct StoredRecordView {
    pub condition_name: Seq<char>,
    pub text: Seq<char>,
    pub vector: Seq<char>,
}

impl View for StoredRecord {
    type V = StoredRecordView;

    open spec fn view(&self) -> StoredRecordView {
        StoredRecordView { condition_name: self.condition_name@, text: self.text@, vector: self.vector@ }
    }
}

impl DeepView for StoredRecord {
    type V = StoredRecordView;

    open spec fn deep_view(&self) -> StoredRecordView {
        self@
    }
}

/// The name of the column of condition names.
pub const NAME_COLUMN: &'static str = "condition_name";

/// The name of the column of texts.
pub const TEXT_COLUMN: &'static str = "text";

/// The name of the column of vectors.
pub const VECTOR_COLUMN: &'static str = "vector";

/// Whether the three columns of a facet's table are among `columns`.
pub open spec fn holds_records(columns: Map<Seq<char>, Seq<Seq<char>>>) -> bool {
    columns.contains_key(NAME_COLUMN@) && columns.contains_key(TEXT_COLUMN@) && columns.contains_key(
        VECTOR_COLUMN@,
    )
}

/// The records that `columns` hold, row by row; none where one of the three columns is
/// missing.
pub open spec fn records_in(columns: Map<Seq<char>, Seq<Seq<char>>>) -> Seq<StoredRecordView> {
    if holds_records(columns) {
        Seq::new(
            columns[NAME_COLUMN@].len(),
            |row: int|
                StoredRecordView {
                    condition_name: columns[NAME_COLUMN@][row],
                    text: columns[TEXT_COLUMN@][row],
                    vector: columns[VECTOR_COLUMN@][row],
                },
        )
    } else {
        Seq::empty()
    }
}

/// Reads the records of `batch`, row by row; none where it lacks one of the three columns.
pub fn decode_records(batch: &TextBatch) -> (records: Vec<StoredRecord>)
    ensures
        records.deep_view() == records_in(text_columns(*batch)),
{
    let rows = row_count(batch);
    let names = match text_column(batch, NAME_COLUMN) {
        Some(names) => names,
        None => {
            return Vec::new();
        },
    };
    let texts = match text_column(batch, TEXT_COLUMN) {
        Some(texts) => texts,
        None => {
            return Vec::new();
        },
    };
    let vectors = match text_column(batch, VECTOR_COLUMN) {
        Some(vectors) => vectors,
        None => {
            return Vec::new();
        },
    };
    let mut records: Vec<StoredRecord> = Vec::new();
    let mut row: usize = 0;
    while row < rows
        invariant
            row <= rows,
            names.len() == rows,
            texts.len() == rows,
            vectors.len() == rows,
            records.len() == row,
            forall|k: int|
                0 <= k < row ==> (#[trigger] records@[k])@ == (StoredRecordView {
                    condition_name: names@[k]@,
                    text: texts@[k]@,
                    vector: vectors@[k]@,
                }),
        decreases rows - row,
    {
        records.push(
            StoredRecord {
                condition_name: names[row].clone(),
                text: texts[row].clone(),
                vector: vectors[row].clone(),
            },
        );
        row += 1;
    }
    proof {
        assert forall|k: int| 0 <= k < rows implies records.deep_view()[k] == records_in(
            text_columns(*batch),
        )[k] by {
            assert(names.deep_view()[k] == names@[k]@);
            assert(texts.deep_view()[k] == texts@[k]@);
            assert(vectors.deep_view()[k] == vectors@[k]@);
        }
        assert(records.deep_view() =~= records_in(text_columns(*batch)));
    }
    records
}

/// Why records could not be made into a batch.
#[derive(Debug, Clone, Copy, PartialEq, Eq, Structural)]
pub enum StoreError {
    /// The texts of one column take more bytes than a column may.
    TooLarge,
    /// The batch was refused.
    Refused,
}

/// The names of `records`, one for each.
pub open spec fn name_column(records: Seq<StoredRecordView>) -> Seq<Seq<char>> {
    Seq::new(records.len(), |row: int| records[row].condition_name)
}

/// The texts of `records`, one for each.
pub open spec fn text_column_of(records: Seq<StoredRecordView>) -> Seq<Seq<char>> {
    Seq::new(records.len(), |row: int| records[row].text)
}

/// The vectors of `records`, one for each.
pub open spec fn vector_column(records: Seq<StoredRecordView>) -> Seq<Seq<char>> {
    Seq::new(records.len(), |row: int| records[row].vector)
}

/// The most bytes that a column may take where the caller allows `allowed`: `allowed`, but
/// not more than `COLUMN_BYTES`.
pub open spec fn column_limit(allowed: usize) -> nat {
    if allowed <= COLUMN_BYTES {
        allowed as nat
    } else {
        COLUMN_BYTES as nat
    }
}

/// Whether `records` fit into one batch of columns of at most `limit` bytes each.
pub open spec fn records_fit(records: Seq<StoredRecordView>, limit: nat) -> bool {
    &&& total_bytes(name_column(records)) <= limit
    &&& total_bytes(text_column_of(records)) <= limit
    &&& total_bytes(vector_column(records)) <= limit
}

/// The bytes of the first texts of a column are no more than those of all.
proof fn lemma_total_bytes_grow(texts: Seq<Seq<char>>, k: int)
    requires
        0 <= k <= texts.len(),
    ensures
        total_bytes(texts.take(k)) <= total_bytes(texts),
    decreases texts.len() - k,
{
    if k == texts.len() {
        assert(texts.take(k) =~= texts);
    } else {
        lemma_total_bytes_grow(texts, k + 1);
        assert(texts.take(k + 1).drop_last() =~= texts.take(k));
    }
}

/// Tells whether the texts of a column take no more than `limit` bytes.
fn column_fits(texts: &Vec<String>, limit: usize) -> (b: bool)
    ensures
        b == (total_bytes(texts.deep_view()) <= limit),
{
    let ghost all = texts.deep_view();
    let mut sum: usize = 0;
    let mut i: usize = 0;
    proof {
        assert(all.take(0) =~= Seq::<Seq<char>>::empty());
    }
    while i < texts.len()
        invariant
            i <= texts.len(),
            all == texts.deep_view(),
            sum == total_bytes(all.take(i as int)),
            sum <= limit,
        decreases texts.len() - i,
    {
        let n = texts[i].as_str().as_bytes().len();
        proof {
            assert(all.take(i + 1).drop_last() =~= all.take(i as int));
            assert(all.take(i + 1).last() == texts@[i as int]@);
            assert(n == byte_len(texts@[i as int]@));
        }
        if n > limit - sum {
            proof {
                lemma_total_bytes_grow(all, i + 1);
            }
            return false;
        }
        sum = sum + n;
        i += 1;
    }
    proof {
        assert(all.take(texts.len() as int) =~= all);
    }
    true
}

/// Makes the batch that holds `records`, row by row, in the three columns of a facet's
/// table, where each column may take `allowed` bytes, and never more than `COLUMN_BYTES`.
/// Fails with `TooLarge` where a column takes more, and not otherwise.
pub fn encode_records_within(records: &Vec<StoredRecord>, allowed: usize) -> (r: Result<
    TextBatch,
    StoreError,
>)
    ensures
        match r {
            Ok(batch) => records_fit(records.deep_view(), column_limit(allowed)) && records_in(
                text_columns(batch),
            ) == records.deep_view(),
            Err(e) => !records_fit(records.deep_view(), column_limit(allowed)) && e
                == StoreError::TooLarge,
        },
{
    let limit: usize = if allowed <= COLUMN_BYTES { allowed } else { COLUMN_BYTES };
    let ghost all = records.deep_view();
    let mut names: Vec<String> = Vec::new();
    let mut texts: Vec<String> = Vec::new();
    let mut vectors: Vec<String> = Vec::new();
    let mut row: usize = 0;
    while row < records.len()
        invariant
            row <= records.len(),
            all == records.deep_view(),
            names.len() == row,
            texts.len() == row,
            vectors.len() == row,
            forall|k: int| 0 <= k < row ==> (#[trigger] names@[k])@ == all[k].condition_name,
            forall|k: int| 0 <= k < row ==> (#[trigger] texts@[k])@ == all[k].text,
            forall|k: int| 0 <= k < row ==> (#[trigger] vectors@[k])@ == all[k].vector,
        decreases records.len() - row,
    {
        assert(all[row as int] == records@[row as int]@);
        names.push(records[row].condition_name.clone());
        texts.push(records[row].text.clone());
        vectors.push(records[row].vector.clone());
        row += 1;
    }
    proof {
        assert(names.deep_view() =~= name_column(all));
        assert(texts.deep_view() =~= text_column_of(all));
        assert(vectors.deep_view() =~= vector_column(all));
    }
    if !column_fits(&names, limit) || !column_fits(&texts, limit) || !column_fits(&vectors, limit) {
        return Err(StoreError::TooLarge);
    }
    let mut titles: Vec<String> = Vec::new();
    titles.push(String::from_str(NAME_COLUMN));
    titles.push(String::from_str(TEXT_COLUMN));
    titles.push(String::from_str(VECTOR_COLUMN));
    let mut columns: Vec<Vec<String>> = Vec::new();
    columns.push(names);
    columns.push(texts);
    columns.push(vectors);
    proof {
        reveal_strlit("condition_name");
        reveal_strlit("text");
        reveal_strlit("vector");
        assert(titles.deep_view() =~= seq![NAME_COLUMN@, TEXT_COLUMN@, VECTOR_COLUMN@]);
        assert(columns.deep_view() =~= seq![
            name_column(all),
            text_column_of(all),
            vector_column(all),
        ]);
        assert(NAME_COLUMN@.len() == 14 && TEXT_COLUMN@.len() == 4 && VECTOR_COLUMN@.len() == 6);
        assert(is_first_of_name(titles.deep_view(), 0));
        assert(is_first_of_name(titles.deep_view(), 1));
        assert(is_first_of_name(titles.deep_view(), 2));
        assert(columns_fit(titles.deep_view(), columns.deep_view()));
    }
    match text_batch(&titles, columns) {
        Ok(batch) => {
            proof {
                let held = text_columns(batch);
                assert(held.contains_key(titles.deep_view()[0]) && held[titles.deep_view()[0]]
                    == name_column(all));
                assert(held.contains_key(titles.deep_view()[1]) && held[titles.deep_view()[1]]
                    == text_column_of(all));
                assert(held.contains_key(titles.deep_view()[2]) && held[titles.deep_view()[2]]
                    == vector_column(all));
                assert(records_in(held) =~= all);
            }
            Ok(batch)
        },
        Err(_) => Err(StoreError::Refused),
    }
}

/// Makes the batch that holds `records`, row by row, in the three columns of a facet's
/// table. Fails with `TooLarge` where a column takes more than `COLUMN_BYTES` bytes, and not
/// otherwise.
pub fn encode_records(records: &Vec<StoredRecord>) -> (r: Result<TextBatch, StoreError>)
    ensures
        match r {
            Ok(batch) => records_fit(records.deep_view(), COLUMN_BYTES as nat) && records_in(
                text_columns(batch),
            ) == records.deep_view(),
            Err(e) => !records_fit(records.deep_view(), COLUMN_BYTES as nat) && e
                == StoreError::TooLarge,
        },
{
    encode_records_within(records, COLUMN_BYTES)
}

} // verus!
