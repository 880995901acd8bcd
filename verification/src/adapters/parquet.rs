//! Columns that a columnar (parquet) source must declare for each kind of
//! dataset, and the check of a declared schema against them.
use vstd::prelude::*;

use crate::adapters::provider::{
    FactsView, MarketDataFacts, ProviderError, SourceDataFormat, SourceField, SourceFieldType, SourceSchema,
};
use crate::domain::config::same_text;

verus! {

/// Columns every candle dataset needs, with their types.
pub open spec fn candle_fields_spec() -> Seq<(Seq<char>, SourceFieldType)> {
    seq![
        ("timestamp"@, SourceFieldType::Timestamp),
        ("open"@, SourceFieldType::Float64),
        ("high"@, SourceFieldType::Float64),
        ("low"@, SourceFieldType::Float64),
        ("close"@, SourceFieldType::Float64),
        ("volume"@, SourceFieldType::Float64),
    ]
}

/// Columns every event dataset needs, with their types.
pub open spec fn event_fields_spec() -> Seq<(Seq<char>, SourceFieldType)> {
    seq![
        ("timestamp"@, SourceFieldType::Timestamp),
        ("sequence"@, SourceFieldType::UInt64),
        ("kind"@, SourceFieldType::Utf8),
    ]
}

pub open spec fn fields_view(fields: Seq<(&'static str, SourceFieldType)>) -> Seq<
    (Seq<char>, SourceFieldType),
> {
    Seq::new(fields.len(), |i: int| (fields[i].0@, fields[i].1))
}

/// The required columns of a candle dataset.
pub fn candle_required_fields() -> (fields: Vec<(&'static str, SourceFieldType)>)
    ensures
        fields_view(fields@) == candle_fields_spec(),
{
    let fields = vec![
        ("timestamp", SourceFieldType::Timestamp),
        ("open", SourceFieldType::Float64),
        ("high", SourceFieldType::Float64),
        ("low", SourceFieldType::Float64),
        ("close", SourceFieldType::Float64),
        ("volume", SourceFieldType::Float64),
    ];
    assert(fields_view(fields@) =~= candle_fields_spec());
    fields
}

/// The required columns of an event dataset.
pub fn event_required_fields() -> (fields: Vec<(&'static str, SourceFieldType)>)
    ensures
        fields_view(fields@) == event_fields_spec(),
{
    let fields = vec![
        ("timestamp", SourceFieldType::Timestamp),
        ("sequence", SourceFieldType::UInt64),
        ("kind", SourceFieldType::Utf8),
    ];
    assert(fields_view(fields@) =~= event_fields_spec());
    fields
}

/// Position of the first declared field with this name.
pub open spec fn first_named(fields: Seq<SourceField>, name: Seq<char>) -> Option<int> {
    if exists|k: int| 0 <= k < fields.len() && (#[trigger] fields[k]).name@ == name {
        Some(
            choose|k: int|
                0 <= k < fields.len() && (#[trigger] fields[k]).name@ == name && forall|m: int|
                    0 <= m < k ==> (#[trigger] fields[m]).name@ != name,
        )
    } else {
        None
    }
}

/// What is wrong with required field `r`: missing, or declared (first by
/// name) with another type.
pub open spec fn required_problem(
    fields: Seq<SourceField>,
    required: Seq<(Seq<char>, SourceFieldType)>,
    r: int,
) -> Option<ProviderError> {
    match first_named(fields, required[r].0) {
        None => Some(ProviderError::MissingSchemaField { required: r as usize }),
        Some(k) => if fields[k].data_type != required[r].1 {
            Some(ProviderError::SchemaFieldType { required: r as usize })
        } else {
            None
        },
    }
}

pub open spec fn required_for(dataset: FactsView) -> Seq<(Seq<char>, SourceFieldType)> {
    match dataset {
        FactsView::Candles(_) => candle_fields_spec(),
        FactsView::Events(_) => event_fields_spec(),
    }
}

/// The problem of the first required field that has one: the first required
/// field that is absent or declared with another type decides the error.
pub open spec fn first_required_problem(
    fields: Seq<SourceField>,
    required: Seq<(Seq<char>, SourceFieldType)>,
) -> Result<(), ProviderError> {
    if exists|r: int| 0 <= r < required.len() && #[trigger] required_problem(fields, required, r) is Some {
        let r = choose|r: int|
            0 <= r < required.len() && #[trigger] required_problem(fields, required, r) is Some
                && forall|m: int| 0 <= m < r ==> #[trigger] required_problem(fields, required, m) is None;
        Err(required_problem(fields, required, r)->0)
    } else {
        Ok(())
    }
}

/// A parquet schema must declare every required field of the dataset's
/// kind with its type; the first required field that fails decides the
/// error. Other formats are not checked.
pub open spec fn schema_check(schema: SourceSchema, dataset: FactsView) -> Result<
    (),
    ProviderError,
> {
    if schema.format != SourceDataFormat::Parquet {
        Ok(())
    } else {
        first_required_problem(schema.fields@, required_for(dataset))
    }
}

fn find_field(fields: &Vec<SourceField>, name: &str) -> (found: Option<usize>)
    ensures
        match found {
            Some(k) => k < fields@.len() && first_named(fields@, name@) == Some(k as int),
            None => first_named(fields@, name@) is None,
        },
{
    let n = fields.len();
    let mut k: usize = 0;
    while k < n
        invariant
            n == fields@.len(),
            k <= n,
            forall|m: int| 0 <= m < k ==> (#[trigger] fields@[m]).name@ != name@,
        decreases n - k,
    {
        if same_text(fields[k].name.as_str(), name) {
            proof {
                let w = choose|w: int|
                    0 <= w < fields@.len() && (#[trigger] fields@[w]).name@ == name@ && forall|m: int|
                        0 <= m < w ==> (#[trigger] fields@[m]).name@ != name@;
                assert(fields@[k as int].name@ == name@);
                if w < k {
                } else if w > k {
                    assert(fields@[k as int].name@ != name@);
                }
            }
            return Some(k);
        }
        k = k + 1;
    }
    None
}

fn problem_for(fields: &Vec<SourceField>, name: &str, expected: SourceFieldType, r: usize) -> (problem:
    Option<ProviderError>)
    ensures
        problem == (match first_named(fields@, name@) {
            None => Some(ProviderError::MissingSchemaField { required: r }),
            Some(k) => if fields@[k].data_type != expected {
                Some(ProviderError::SchemaFieldType { required: r })
            } else {
                None
            },
        }),
{
    match find_field(fields, name) {
        None => Some(ProviderError::MissingSchemaField { required: r }),
        Some(k) => if fields[k].data_type != expected {
            Some(ProviderError::SchemaFieldType { required: r })
        } else {
            None
        },
    }
}

proof fn lemma_first_problem(
    fields: Seq<SourceField>,
    req: Seq<(Seq<char>, SourceFieldType)>,
    r: int,
)
    requires
        0 <= r < req.len(),
        required_problem(fields, req, r) is Some,
        forall|m: int| 0 <= m < r ==> #[trigger] required_problem(fields, req, m) is None,
    ensures
        first_required_problem(fields, req) == Err::<(), ProviderError>(
            required_problem(fields, req, r)->0,
        ),
{
    let w = choose|w: int|
        0 <= w < req.len() && #[trigger] required_problem(fields, req, w) is Some && forall|m: int|
            0 <= m < w ==> #[trigger] required_problem(fields, req, m) is None;
    if w < r {
    } else if w > r {
        assert(required_problem(fields, req, r) is None);
    }
    assert(w == r);
}

/// Check a source schema against the fields the dataset's kind requires.
pub fn validate_schema_for_dataset(schema: &SourceSchema, dataset: &MarketDataFacts) -> (result:
    Result<(), ProviderError>)
    ensures
        result == schema_check(*schema, dataset@),
{
    if schema.format != SourceDataFormat::Parquet {
        return Ok(());
    }
    let required = match dataset {
        MarketDataFacts::Candles(_) => candle_required_fields(),
        MarketDataFacts::Events(_) => event_required_fields(),
    };
    let ghost req = required_for(dataset@);
    let n = required.len();
    let mut r: usize = 0;
    while r < n
        invariant
            n == required@.len(),
            req == required_for(dataset@),
            fields_view(required@) == req,
            r <= n,
            schema.format == SourceDataFormat::Parquet,
            forall|m: int| 0 <= m < r ==> #[trigger] required_problem(schema.fields@, req, m) is None,
        decreases n - r,
    {
        let (name, expected) = required[r];
        assert(req[r as int] == (name@, expected));
        let problem = problem_for(&schema.fields, name, expected, r);
        assert(problem == required_problem(schema.fields@, req, r as int));
        match problem {
            Some(err) => {
                proof {
                    lemma_first_problem(schema.fields@, req, r as int);
                }
                return Err(err);
            },
            None => {},
        }
        r = r + 1;
    }
    assert(first_required_problem(schema.fields@, req) == Ok::<(), ProviderError>(()));
    Ok(())
}

} // verus!
