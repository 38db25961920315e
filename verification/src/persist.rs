use vstd::prelude::*;

verus! {

/// A scalar field value inside a persisted record. `Other` stands for any
/// further persisted value — a nested container, or a number that is no
/// integer — which the record schema rejects.
#[derive(Debug)]
pub enum FieldValue {
    Null,
    Bool(bool),
    UInt(u64),
    Int(i64),
    Str(String),
    Other,
}

/// Mathematical model of a field value.
#[verifier::ext_equal]
pub ghost enum FieldModel {
    Null,
    Bool(bool),
    UInt(u64),
    Int(i64),
    Str(Seq<char>),
    Other,
}

impl View for FieldValue {
    type V = FieldModel;

    open spec fn view(&self) -> FieldModel {
        match self {
            FieldValue::Null => FieldModel::Null,
            FieldValue::Bool(b) => FieldModel::Bool(*b),
            FieldValue::UInt(n) => FieldModel::UInt(*n),
            FieldValue::Int(n) => FieldModel::Int(*n),
            FieldValue::Str(s) => FieldModel::Str(s@),
            FieldValue::Other => FieldModel::Other,
        }
    }
}

/// A persisted record as handed over by the storage layer: key/value pairs in
/// the order they were read.
#[derive(Debug)]
pub struct RawRecord {
    pub fields: Vec<(String, FieldValue)>,
}

impl View for RawRecord {
    type V = Seq<(Seq<char>, FieldModel)>;

    open spec fn view(&self) -> Seq<(Seq<char>, FieldModel)> {
        self.fields@.map_values(|p: (String, FieldValue)| (p.0@, p.1@))
    }
}

/// One reading-progress record: the last-read page of a file and the moment
/// it was recorded, in seconds of the Unix epoch.
#[derive(Clone, Copy, PartialEq, Eq, Structural, Debug)]
pub struct ProgressRecord {
    pub page: u64,
    pub readed_time: i64,
}

/// Why a persisted record was rejected.
#[derive(Clone, Copy, PartialEq, Eq, Structural, Debug)]
pub enum SchemaError {
    /// A required field is absent.
    MissingField,
    /// A field not part of the schema is present.
    UnknownField,
    /// A required field appears twice.
    DuplicateField,
    /// A field holds a value of the wrong type.
    WrongType,
}

/// The timestamp a field value stands for, if it is an admissible timestamp.
pub open spec fn spec_time_of(v: FieldModel) -> Option<i64> {
    match v {
        FieldModel::Int(t) => Some(t),
        FieldModel::UInt(u) => if u <= i64::MAX as u64 {
            Some(u as i64)
        } else {
            None
        },
        _ => None,
    }
}

/// Schema validation of a record's fields, front to back: exactly the keys
/// "page" (a non-negative integer) and "readed_time" (a timestamp), each at
/// most once; any other key, a repeated key or an ill-typed value rejects the
/// record, and a key left unseen at the end rejects it as missing.
pub open spec fn spec_load_fields(
    fields: Seq<(Seq<char>, FieldModel)>,
    page: Option<u64>,
    time: Option<i64>,
) -> Result<ProgressRecord, SchemaError>
    decreases fields.len(),
{
    if fields.len() == 0 {
        match (page, time) {
            (Some(p), Some(t)) => Ok(ProgressRecord { page: p, readed_time: t }),
            _ => Err(SchemaError::MissingField),
        }
    } else {
        let (key, value) = fields[0];
        if key == "page"@ {
            if page is Some {
                Err(SchemaError::DuplicateField)
            } else {
                match value {
                    FieldModel::UInt(p) => spec_load_fields(fields.skip(1), Some(p), time),
                    _ => Err(SchemaError::WrongType),
                }
            }
        } else if key == "readed_time"@ {
            if time is Some {
                Err(SchemaError::DuplicateField)
            } else {
                match spec_time_of(value) {
                    Some(t) => spec_load_fields(fields.skip(1), page, Some(t)),
                    None => Err(SchemaError::WrongType),
                }
            }
        } else {
            Err(SchemaError::UnknownField)
        }
    }
}

/// What loading a persisted record yields.
pub open spec fn spec_load_record(fields: Seq<(Seq<char>, FieldModel)>) -> Result<
    ProgressRecord,
    SchemaError,
> {
    spec_load_fields(fields, None, None)
}

/// Validate a persisted record against the schema and extract the progress
/// record it holds.
pub fn load_record(raw: &RawRecord) -> (r: Result<ProgressRecord, SchemaError>)
    ensures
        r == spec_load_record(raw@),
{
    let page_key: String = "page".to_owned();
    let time_key: String = "readed_time".to_owned();
    let mut page: Option<u64> = None;
    let mut time: Option<i64> = None;
    let n = raw.fields.len();
    let mut i: usize = 0;
    proof {
        assert(raw@.skip(0) =~= raw@);
    }
    while i < n
        invariant
            0 <= i <= n,
            n == raw.fields.len(),
            page_key@ == "page"@,
            time_key@ == "readed_time"@,
            spec_load_record(raw@) == spec_load_fields(raw@.skip(i as int), page, time),
        decreases n - i,
    {
        let pair = &raw.fields[i];
        proof {
            assert(raw@[i as int] == (pair.0@, pair.1@));
            assert(raw@.skip(i as int)[0] == raw@[i as int]);
            assert(raw@.skip(i as int).skip(1) =~= raw@.skip(i + 1));
        }
        if pair.0 == page_key {
            if page.is_some() {
                return Err(SchemaError::DuplicateField);
            }
            match &pair.1 {
                FieldValue::UInt(p) => {
                    page = Some(*p);
                },
                _ => {
                    return Err(SchemaError::WrongType);
                },
            }
        } else if pair.0 == time_key {
            if time.is_some() {
                return Err(SchemaError::DuplicateField);
            }
            match &pair.1 {
                FieldValue::Int(t) => {
                    time = Some(*t);
                },
                FieldValue::UInt(u) => {
                    if *u <= (i64::MAX as u64) {
                        time = Some(*u as i64);
                    } else {
                        return Err(SchemaError::WrongType);
                    }
                },
                _ => {
                    return Err(SchemaError::WrongType);
                },
            }
        } else {
            return Err(SchemaError::UnknownField);
        }
        i = i + 1;
    }
    proof {
        assert(raw@.skip(n as int) =~= Seq::<(Seq<char>, FieldModel)>::empty());
    }
    match (page, time) {
        (Some(p), Some(t)) => Ok(ProgressRecord { page: p, readed_time: t }),
        _ => Err(SchemaError::MissingField),
    }
}

/// The persisted form of a progress record: exactly the two schema fields.
pub open spec fn spec_save_record(rec: ProgressRecord) -> Seq<(Seq<char>, FieldModel)> {
    seq![
        ("page"@, FieldModel::UInt(rec.page)),
        ("readed_time"@, FieldModel::Int(rec.readed_time)),
    ]
}

/// Serialize a progress record into its persisted form.
pub fn save_record(rec: &ProgressRecord) -> (raw: RawRecord)
    ensures
        raw@ == spec_save_record(*rec),
{
    let mut fields: Vec<(String, FieldValue)> = Vec::new();
    fields.push(("page".to_owned(), FieldValue::UInt(rec.page)));
    fields.push(("readed_time".to_owned(), FieldValue::Int(rec.readed_time)));
    let raw = RawRecord { fields };
    proof {
        assert(raw@ =~= spec_save_record(*rec));
    }
    raw
}

/// Loading a saved record gives back exactly the record.
pub proof fn lemma_record_round_trip(rec: ProgressRecord)
    ensures
        spec_load_record(spec_save_record(rec)) == Ok::<ProgressRecord, SchemaError>(rec),
{
    reveal_strlit("page");
    reveal_strlit("readed_time");
    assert("page"@.len() != "readed_time"@.len());
    let fs = spec_save_record(rec);
    let fs1 = seq![("readed_time"@, FieldModel::Int(rec.readed_time))];
    assert(fs.skip(1) =~= fs1);
    assert(fs1.skip(1) =~= Seq::<(Seq<char>, FieldModel)>::empty());
    assert(spec_load_fields(fs, None, None) == spec_load_fields(fs1, Some(rec.page), None));
    assert(spec_load_fields(fs1, Some(rec.page), None) == spec_load_fields(
        fs1.skip(1),
        Some(rec.page),
        Some(rec.readed_time),
    ));
}

proof fn lemma_load_no_page_fields(fields: Seq<(Seq<char>, FieldModel)>, time: Option<i64>)
    requires
        forall|j: int| 0 <= j < fields.len() ==> (#[trigger] fields[j]).0 != "page"@,
    ensures
        spec_load_fields(fields, None, time) is Err,
    decreases fields.len(),
{
    if fields.len() != 0 {
        let (key, value) = fields[0];
        if key == "readed_time"@ && !(time is Some) {
            if spec_time_of(value) is Some {
                assert(forall|j: int|
                    0 <= j < fields.skip(1).len() ==> (#[trigger] fields.skip(1)[j]).0
                        != "page"@);
                lemma_load_no_page_fields(fields.skip(1), spec_time_of(value));
            }
        }
    }
}

/// A persisted record with no "page" key fails to load with a schema error.
pub proof fn lemma_load_missing_page(fields: Seq<(Seq<char>, FieldModel)>)
    requires
        forall|j: int| 0 <= j < fields.len() ==> (#[trigger] fields[j]).0 != "page"@,
    ensures
        spec_load_record(fields) is Err,
{
    lemma_load_no_page_fields(fields, None);
}

proof fn lemma_load_unknown_fields(
    fields: Seq<(Seq<char>, FieldModel)>,
    page: Option<u64>,
    time: Option<i64>,
)
    requires
        exists|j: int|
            0 <= j < fields.len() && (#[trigger] fields[j]).0 != "page"@ && fields[j].0
                != "readed_time"@,
    ensures
        spec_load_fields(fields, page, time) is Err,
    decreases fields.len(),
{
    let j0 = choose|j: int|
        0 <= j < fields.len() && (#[trigger] fields[j]).0 != "page"@ && fields[j].0
            != "readed_time"@;
    let (key, value) = fields[0];
    if key == "page"@ || key == "readed_time"@ {
        assert(j0 >= 1);
        assert(fields.skip(1)[j0 - 1] == fields[j0]);
        if key == "page"@ && !(page is Some) {
            match value {
                FieldModel::UInt(p) => {
                    lemma_load_unknown_fields(fields.skip(1), Some(p), time);
                },
                _ => {},
            }
        } else if key == "readed_time"@ && !(time is Some) {
            match spec_time_of(value) {
                Some(t) => {
                    lemma_load_unknown_fields(fields.skip(1), page, Some(t));
                },
                None => {},
            }
        }
    }
}

/// A persisted record that carries a key outside the schema fails to load
/// with a schema error.
pub proof fn lemma_load_unknown_field(fields: Seq<(Seq<char>, FieldModel)>)
    requires
        exists|j: int|
            0 <= j < fields.len() && (#[trigger] fields[j]).0 != "page"@ && fields[j].0
                != "readed_time"@,
    ensures
        spec_load_record(fields) is Err,
{
    lemma_load_unknown_fields(fields, None, None);
}

} // verus!
