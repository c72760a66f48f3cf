//! Wiring one file into a sample: its headers, its population and the filter
//! that picks the sampled rows out of its row stream.
//!
//! The library reads a file's metadata as a [`FileSummary`]: the names of the
//! schema's top-level fields and the row count recorded in the footer, as
//! plain values.
use crate::filter::RowFilter;
use crate::sampler::{is_sample_of, sample_indexes};
use vstd::prelude::*;

verus! {

/// The number of rows that a recorded row count stands for: a negative count
/// stands for none, and a count past what `usize` holds for `usize::MAX`.
pub open spec fn population_of(recorded: int) -> int {
    if recorded <= 0 {
        0
    } else if recorded > usize::MAX {
        usize::MAX as int
    } else {
        recorded
    }
}

/// The number of rows in a file whose footer records `recorded` rows.
pub fn population_size(recorded: i64) -> (r: usize)
    ensures
        r as int == population_of(recorded as int),
{
    if recorded <= 0 {
        0
    } else if recorded as u64 > usize::MAX as u64 {
        usize::MAX
    } else {
        recorded as usize
    }
}

/// A copy of `names`, in the same order.
fn copy_names(names: &Vec<String>) -> (r: Vec<String>)
    ensures
        r@ == names@,
{
    let mut r: Vec<String> = Vec::new();
    let mut i: usize = 0;
    while i < names.len()
        invariant
            i <= names.len(),
            r@ == names@.subrange(0, i as int),
        decreases names.len() - i,
    {
        r.push(names[i].clone());
        i = i + 1;
        assert(r@ =~= names@.subrange(0, i as int));
    }
    assert(names@.subrange(0, names.len() as int) =~= names@);
    r
}

/// What sampling reads from a file's metadata.
pub struct FileSummary {
    /// The names of the schema's top-level fields, in declaration order.
    pub field_names: Vec<String>,
    /// The row count recorded in the file's footer.
    pub recorded_rows: i64,
}

/// The headers of the table for a file summarised by `summary`: the
/// requested `columns` verbatim, in their order, when given; otherwise the
/// schema's field names in schema order.
pub fn metadata_headers(summary: &FileSummary, columns: &Option<Vec<String>>) -> (r: Vec<String>)
    ensures
        match columns {
            Some(c) => r@ == c@,
            None => r@ == summary.field_names@,
        },
{
    match columns {
        Some(c) => copy_names(c),
        None => copy_names(&summary.field_names),
    }
}

/// Why the requested columns cannot be projected out of a file.
#[derive(Debug, PartialEq, Eq)]
pub enum ProjectionError {
    /// The schema has no top-level field of this name.
    UnknownColumn(String),
}

/// Some field of `names` is called `name`.
pub open spec fn names_contain(names: Seq<String>, name: Seq<char>) -> bool {
    exists|j: int| 0 <= j < names.len() && (#[trigger] names[j])@ == name
}

/// `j` is where `name` first occurs among `names`.
pub open spec fn is_first_position(names: Seq<String>, name: Seq<char>, j: int) -> bool {
    &&& 0 <= j < names.len()
    &&& names[j]@ == name
    &&& forall|k: int| 0 <= k < j ==> (#[trigger] names[k])@ != name
}

/// Where `name` first occurs among `names`, if it does.
fn position_of(names: &Vec<String>, name: &String) -> (r: Option<usize>)
    ensures
        match r {
            Some(j) => is_first_position(names@, name@, j as int),
            None => !names_contain(names@, name@),
        },
{
    let mut j: usize = 0;
    while j < names.len()
        invariant
            j <= names.len(),
            forall|k: int| 0 <= k < j ==> (#[trigger] names@[k])@ != name@,
        decreases names.len() - j,
    {
        if names[j] == *name {
            return Some(j);
        }
        j = j + 1;
    }
    None
}

/// The positions, among the schema's top-level fields, of the requested
/// `columns`, in the order requested. A name that the schema lacks is an
/// error, which names the first such column.
pub fn projection_positions(schema_names: &Vec<String>, columns: &Vec<String>) -> (r: Result<
    Vec<usize>,
    ProjectionError,
>)
    ensures
        r is Ok <==> forall|i: int|
            0 <= i < columns.len() ==> names_contain(schema_names@, (#[trigger] columns[i])@),
        r matches Ok(p) ==> {
            &&& p.len() == columns.len()
            &&& forall|i: int|
                0 <= i < columns.len() ==> is_first_position(
                    schema_names@,
                    (#[trigger] columns[i])@,
                    p[i] as int,
                )
        },
        r matches Err(ProjectionError::UnknownColumn(n)) ==> exists|i: int|
            {
                &&& 0 <= i < columns.len()
                &&& (#[trigger] columns[i])@ == n@
                &&& !names_contain(schema_names@, n@)
                &&& forall|k: int| 0 <= k < i ==> names_contain(schema_names@, (#[trigger] columns[k])@)
            },
{
    let mut positions: Vec<usize> = Vec::new();
    let mut i: usize = 0;
    while i < columns.len()
        invariant
            i <= columns.len(),
            positions.len() == i,
            forall|k: int|
                0 <= k < i ==> is_first_position(
                    schema_names@,
                    (#[trigger] columns[k])@,
                    positions[k] as int,
                ),
        decreases columns.len() - i,
    {
        match position_of(schema_names, &columns[i]) {
            Some(j) => positions.push(j),
            None => {
                let missing = columns[i].clone();
                proof {
                    assert forall|k: int| 0 <= k < i implies names_contain(
                        schema_names@,
                        (#[trigger] columns[k])@,
                    ) by {
                        assert(is_first_position(schema_names@, columns[k]@, positions[k] as int));
                    }
                }
                return Err(ProjectionError::UnknownColumn(missing));
            },
        }
        i = i + 1;
    }
    proof {
        assert forall|k: int| 0 <= k < columns.len() implies names_contain(
            schema_names@,
            (#[trigger] columns[k])@,
        ) by {
            assert(is_first_position(schema_names@, columns[k]@, positions[k] as int));
        }
    }
    Ok(positions)
}

/// What sampling one file needs: the headers of the table, the number of rows
/// in the file, and a fresh filter over the sampled ordinals.
pub struct SamplePlan {
    pub headers: Vec<String>,
    pub population: usize,
    pub filter: RowFilter,
}

/// The facts a plan for a file summarised by `summary` holds: the headers
/// resolved from `columns` and the schema, the file's row count, a filter
/// before any row, over a sample of `sample` of those rows, which takes every
/// row when `sample` is at least the row count.
pub open spec fn plans_file(
    p: SamplePlan,
    summary: FileSummary,
    columns: Option<Vec<String>>,
    sample: usize,
) -> bool {
    &&& match columns {
        Some(c) => p.headers@ == c@,
        None => p.headers@ == summary.field_names@,
    }
    &&& p.population as int == population_of(summary.recorded_rows as int)
    &&& p.filter.position() == 0
    &&& is_sample_of(p.filter.keep(), sample as nat, p.population as nat)
    &&& sample >= p.population ==> forall|i: usize|
        i < p.population ==> #[trigger] p.filter.keep().contains(i)
}

/// Plans a sample of `sample` rows out of the file summarised by `summary`.
pub fn plan_sample(summary: &FileSummary, columns: &Option<Vec<String>>, sample: usize) -> (p:
    SamplePlan)
    ensures
        plans_file(p, *summary, *columns, sample),
{
    let headers = metadata_headers(summary, columns);
    let population = population_size(summary.recorded_rows);
    let indexes = sample_indexes(sample, population);
    SamplePlan { headers, population, filter: RowFilter::new(indexes) }
}

/// Plans a sample of `sample` rows out of a file whose metadata is
/// summarised by `summary`. A file whose metadata is absent has nothing to
/// sample: no plan, and nothing is to be written for it.
pub fn sample_plan(summary: Option<&FileSummary>, columns: &Option<Vec<String>>, sample: usize) -> (r:
    Option<SamplePlan>)
    ensures
        r is Some <==> summary is Some,
        r matches Some(p) ==> plans_file(p, *summary->Some_0, *columns, sample),
{
    match summary {
        None => None,
        Some(s) => Some(plan_sample(s, columns, sample)),
    }
}

} // verus!
