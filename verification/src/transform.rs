//! The field transformer: resolves the header mapping once, then converts
//! each raw row into a typed account-creation request. Batching exists only
//! for throughput pacing; it has no semantic effect, which
//! `batch_transform_records` states and proves.
use vstd::prelude::*;

use crate::chars::{blank, field_at, find_header, find_ic, str_eq, trim_str, value_at};
use crate::validation::trimmed_field;

verus! {

/// One account-creation request, built from one CSV row; consumed by the
/// reconciler and never persisted as-is. Required fields are trimmed;
/// optional fields are `None` when their column is absent or blank.
#[derive(Debug)]
pub struct CreateSchoolAccountRequest {
    pub school_id: String,
    pub first_name: String,
    pub middle_name: String,
    pub last_name: String,
    pub gender: Option<String>,
    pub course: Option<String>,
    pub department: Option<String>,
    pub position: Option<String>,
    pub major: Option<String>,
    pub year_level: Option<String>,
    pub is_active: Option<bool>,
    pub last_updated_semester_id: Option<uuid::Uuid>,
}

/// Mathematical model of an account-creation request.
#[verifier::ext_equal]
pub ghost struct SpecRequest {
    pub school_id: Seq<char>,
    pub first_name: Seq<char>,
    pub middle_name: Seq<char>,
    pub last_name: Seq<char>,
    pub gender: Option<Seq<char>>,
    pub course: Option<Seq<char>>,
    pub department: Option<Seq<char>>,
    pub position: Option<Seq<char>>,
    pub major: Option<Seq<char>>,
    pub year_level: Option<Seq<char>>,
    pub is_active: Option<bool>,
    pub last_updated_semester_id: Option<uuid::Uuid>,
}

impl View for CreateSchoolAccountRequest {
    type V = SpecRequest;

    open spec fn view(&self) -> SpecRequest {
        SpecRequest {
            school_id: self.school_id@,
            first_name: self.first_name@,
            middle_name: self.middle_name@,
            last_name: self.last_name@,
            gender: self.gender.deep_view(),
            course: self.course.deep_view(),
            department: self.department.deep_view(),
            position: self.position.deep_view(),
            major: self.major.deep_view(),
            year_level: self.year_level.deep_view(),
            is_active: self.is_active,
            last_updated_semester_id: self.last_updated_semester_id,
        }
    }
}

#[derive(Clone, Copy, Debug, PartialEq, Eq, Structural)]
pub enum TransformErrorKind {
    MissingColumn,
    EmptyField,
}

/// Why one row could not become a well-formed request: a required column is
/// not in the header mapping, or the row's value for it is blank.
#[derive(Debug)]
pub struct TransformError {
    pub kind: TransformErrorKind,
    pub field: String,
}

/// Mathematical model of a transform failure.
#[verifier::ext_equal]
pub ghost struct SpecTransformError {
    pub kind: TransformErrorKind,
    pub field: Seq<char>,
}

impl View for TransformError {
    type V = SpecTransformError;

    open spec fn view(&self) -> SpecTransformError {
        SpecTransformError { kind: self.kind, field: self.field@ }
    }
}

pub open spec fn missing_column(field: Seq<char>) -> SpecTransformError {
    SpecTransformError { kind: TransformErrorKind::MissingColumn, field }
}

pub open spec fn empty_field(field: Seq<char>) -> SpecTransformError {
    SpecTransformError { kind: TransformErrorKind::EmptyField, field }
}

/// The value an optional column contributes to a request: the trimmed cell
/// when the column is present and the cell is not blank, nothing otherwise.
pub open spec fn opt_field_val(hs: Seq<Seq<char>>, rec: Seq<Seq<char>>, name: Seq<char>) -> Option<
    Seq<char>,
> {
    if find_ic(hs, name) >= 0 && !blank(value_at(rec, find_ic(hs, name))) {
        Some(trimmed_field(hs, rec, name))
    } else {
        None
    }
}

/// The active flag a row asks for: `1`/`true` and `0`/`false` are read
/// exactly; anything else (or an absent or blank cell) asks for nothing.
pub open spec fn active_flag_val(hs: Seq<Seq<char>>, rec: Seq<Seq<char>>) -> Option<bool> {
    if find_ic(hs, "is_active"@) >= 0 && !blank(value_at(rec, find_ic(hs, "is_active"@))) {
        let t = trimmed_field(hs, rec, "is_active"@);
        if t == "1"@ || t == "true"@ {
            Some(true)
        } else if t == "0"@ || t == "false"@ {
            Some(false)
        } else {
            None
        }
    } else {
        None
    }
}

/// What transforming one row yields: the first required column that is
/// absent or blank fails the row (in `student_id`, `first_name`,
/// `middle_name`, `last_name` order); otherwise the typed request, with the
/// semester reference left for the reconciler to stamp.
pub open spec fn transform_spec(hs: Seq<Seq<char>>, rec: Seq<Seq<char>>) -> Result<
    SpecRequest,
    SpecTransformError,
> {
    if find_ic(hs, "student_id"@) < 0 {
        Err(missing_column("student_id"@))
    } else if blank(value_at(rec, find_ic(hs, "student_id"@))) {
        Err(empty_field("student_id"@))
    } else if find_ic(hs, "first_name"@) < 0 {
        Err(missing_column("first_name"@))
    } else if blank(value_at(rec, find_ic(hs, "first_name"@))) {
        Err(empty_field("first_name"@))
    } else if find_ic(hs, "middle_name"@) < 0 {
        Err(missing_column("middle_name"@))
    } else if blank(value_at(rec, find_ic(hs, "middle_name"@))) {
        Err(empty_field("middle_name"@))
    } else if find_ic(hs, "last_name"@) < 0 {
        Err(missing_column("last_name"@))
    } else if blank(value_at(rec, find_ic(hs, "last_name"@))) {
        Err(empty_field("last_name"@))
    } else {
        Ok(
            SpecRequest {
                school_id: trimmed_field(hs, rec, "student_id"@),
                first_name: trimmed_field(hs, rec, "first_name"@),
                middle_name: trimmed_field(hs, rec, "middle_name"@),
                last_name: trimmed_field(hs, rec, "last_name"@),
                gender: opt_field_val(hs, rec, "gender"@),
                course: opt_field_val(hs, rec, "course"@),
                department: opt_field_val(hs, rec, "department"@),
                position: opt_field_val(hs, rec, "position"@),
                major: opt_field_val(hs, rec, "major"@),
                year_level: opt_field_val(hs, rec, "year_level"@),
                is_active: active_flag_val(hs, rec),
                last_updated_semester_id: None,
            },
        )
    }
}

/// The model of one transform result.
pub open spec fn res_view(r: Result<CreateSchoolAccountRequest, TransformError>) -> Result<
    SpecRequest,
    SpecTransformError,
> {
    match r {
        Ok(q) => Ok(q@),
        Err(e) => Err(e@),
    }
}

/// The models of a list of transform results, in order.
pub open spec fn results_view(s: Seq<Result<CreateSchoolAccountRequest, TransformError>>) -> Seq<
    Result<SpecRequest, SpecTransformError>,
> {
    s.map_values(|r: Result<CreateSchoolAccountRequest, TransformError>| res_view(r))
}

/// The transform results of the first `k` rows, in file order.
pub open spec fn transforms_upto(hs: Seq<Seq<char>>, recs: Seq<Seq<Seq<char>>>, k: int) -> Seq<
    Result<SpecRequest, SpecTransformError>,
>
    decreases k,
{
    if k <= 0 {
        Seq::empty()
    } else {
        transforms_upto(hs, recs, k - 1) + seq![transform_spec(hs, recs[k - 1])]
    }
}

/// There is one transform result per row considered.
pub proof fn lemma_transforms_upto_len(hs: Seq<Seq<char>>, recs: Seq<Seq<Seq<char>>>, k: int)
    requires
        0 <= k,
    ensures
        transforms_upto(hs, recs, k).len() == k,
    decreases k,
{
    if k > 0 {
        lemma_transforms_upto_len(hs, recs, k - 1);
    }
}

/// The transform results of every row, in file order.
pub open spec fn transforms(hs: Seq<Seq<char>>, recs: Seq<Seq<Seq<char>>>) -> Seq<
    Result<SpecRequest, SpecTransformError>,
> {
    transforms_upto(hs, recs, recs.len() as int)
}

/// Resolves each recognized column name against the header row once
/// (case-insensitively, by position); rows are then transformed uniformly
/// through the resolved mapping.
pub struct CsvTransformer {
    student_id_idx: Option<usize>,
    first_name_idx: Option<usize>,
    middle_name_idx: Option<usize>,
    last_name_idx: Option<usize>,
    gender_idx: Option<usize>,
    course_idx: Option<usize>,
    department_idx: Option<usize>,
    position_idx: Option<usize>,
    major_idx: Option<usize>,
    year_level_idx: Option<usize>,
    is_active_idx: Option<usize>,
    headers_g: Ghost<Seq<Seq<char>>>,
}

/// Whether a stored column index is the resolution of `name` against `hs`.
pub open spec fn resolves_to(o: Option<usize>, hs: Seq<Seq<char>>, name: Seq<char>) -> bool {
    match o {
        Some(i) => find_ic(hs, name) == i as int,
        None => find_ic(hs, name) == -1,
    }
}

impl CsvTransformer {
    /// The header row this transformer was built from.
    pub closed spec fn spec_headers(&self) -> Seq<Seq<char>> {
        self.headers_g@
    }

    /// Every stored index is the resolution of its column name.
    pub closed spec fn wf(&self) -> bool {
        &&& resolves_to(self.student_id_idx, self.headers_g@, "student_id"@)
        &&& resolves_to(self.first_name_idx, self.headers_g@, "first_name"@)
        &&& resolves_to(self.middle_name_idx, self.headers_g@, "middle_name"@)
        &&& resolves_to(self.last_name_idx, self.headers_g@, "last_name"@)
        &&& resolves_to(self.gender_idx, self.headers_g@, "gender"@)
        &&& resolves_to(self.course_idx, self.headers_g@, "course"@)
        &&& resolves_to(self.department_idx, self.headers_g@, "department"@)
        &&& resolves_to(self.position_idx, self.headers_g@, "position"@)
        &&& resolves_to(self.major_idx, self.headers_g@, "major"@)
        &&& resolves_to(self.year_level_idx, self.headers_g@, "year_level"@)
        &&& resolves_to(self.is_active_idx, self.headers_g@, "is_active"@)
    }

    pub fn new(headers: &Vec<String>) -> (t: Self)
        ensures
            t.wf(),
            t.spec_headers() == headers.deep_view(),
    {
        CsvTransformer {
            student_id_idx: find_header(headers, "student_id"),
            first_name_idx: find_header(headers, "first_name"),
            middle_name_idx: find_header(headers, "middle_name"),
            last_name_idx: find_header(headers, "last_name"),
            gender_idx: find_header(headers, "gender"),
            course_idx: find_header(headers, "course"),
            department_idx: find_header(headers, "department"),
            position_idx: find_header(headers, "position"),
            major_idx: find_header(headers, "major"),
            year_level_idx: find_header(headers, "year_level"),
            is_active_idx: find_header(headers, "is_active"),
            headers_g: Ghost(headers.deep_view()),
        }
    }

    /// Reads one required column of a row: its index when resolved, the
    /// trimmed value when not blank, the exact failure otherwise.
    fn required_field(
        &self,
        record: &Vec<String>,
        idx: Option<usize>,
        name: &str,
        Ghost(gname): Ghost<Seq<char>>,
    ) -> (r: Result<String, TransformError>)
        requires
            resolves_to(idx, self.spec_headers(), gname),
            name@ == gname,
        ensures
            ({
                let hs = self.spec_headers();
                let rec = record.deep_view();
                match r {
                    Ok(v) => find_ic(hs, gname) >= 0 && !blank(value_at(rec, find_ic(hs, gname)))
                        && v@ == trimmed_field(hs, rec, gname),
                    Err(e) => if find_ic(hs, gname) < 0 {
                        e@ == missing_column(gname)
                    } else {
                        blank(value_at(rec, find_ic(hs, gname))) && e@ == empty_field(gname)
                    },
                }
            }),
    {
        match idx {
            Some(i) => {
                let t = trim_str(field_at(record, i));
                if t.is_empty() {
                    Err(
                        TransformError {
                            kind: TransformErrorKind::EmptyField,
                            field: name.to_owned(),
                        },
                    )
                } else {
                    Ok(t.to_owned())
                }
            },
            None => Err(
                TransformError { kind: TransformErrorKind::MissingColumn, field: name.to_owned() },
            ),
        }
    }

    /// Reads one optional column of a row: the trimmed value when the column
    /// is present and the cell is not blank.
    fn optional_field(
        &self,
        record: &Vec<String>,
        idx: Option<usize>,
        Ghost(gname): Ghost<Seq<char>>,
    ) -> (r: Option<String>)
        requires
            resolves_to(idx, self.spec_headers(), gname),
        ensures
            r.deep_view() == opt_field_val(self.spec_headers(), record.deep_view(), gname),
    {
        match idx {
            Some(i) => {
                let t = trim_str(field_at(record, i));
                if t.is_empty() {
                    None
                } else {
                    Some(t.to_owned())
                }
            },
            None => None,
        }
    }

    /// Transforms one raw row into a typed request through the resolved
    /// header mapping; the result is exactly `transform_spec` of the header
    /// row and the record.
    pub fn transform_record(&self, record: &Vec<String>) -> (r: Result<
        CreateSchoolAccountRequest,
        TransformError,
    >)
        requires
            self.wf(),
        ensures
            res_view(r) == transform_spec(self.spec_headers(), record.deep_view()),
    {
        let school_id = match self.required_field(
            record,
            self.student_id_idx,
            "student_id",
            Ghost("student_id"@),
        ) {
            Ok(v) => v,
            Err(e) => {
                return Err(e);
            },
        };
        let first_name = match self.required_field(
            record,
            self.first_name_idx,
            "first_name",
            Ghost("first_name"@),
        ) {
            Ok(v) => v,
            Err(e) => {
                return Err(e);
            },
        };
        let middle_name = match self.required_field(
            record,
            self.middle_name_idx,
            "middle_name",
            Ghost("middle_name"@),
        ) {
            Ok(v) => v,
            Err(e) => {
                return Err(e);
            },
        };
        let last_name = match self.required_field(
            record,
            self.last_name_idx,
            "last_name",
            Ghost("last_name"@),
        ) {
            Ok(v) => v,
            Err(e) => {
                return Err(e);
            },
        };
        let is_active = match self.is_active_idx {
            Some(i) => {
                let t = trim_str(field_at(record, i));
                if t.is_empty() {
                    None
                } else if str_eq(t, "1") || str_eq(t, "true") {
                    Some(true)
                } else if str_eq(t, "0") || str_eq(t, "false") {
                    Some(false)
                } else {
                    None
                }
            },
            None => None,
        };
        Ok(
            CreateSchoolAccountRequest {
                school_id,
                first_name,
                middle_name,
                last_name,
                gender: self.optional_field(record, self.gender_idx, Ghost("gender"@)),
                course: self.optional_field(record, self.course_idx, Ghost("course"@)),
                department: self.optional_field(record, self.department_idx, Ghost("department"@)),
                position: self.optional_field(record, self.position_idx, Ghost("position"@)),
                major: self.optional_field(record, self.major_idx, Ghost("major"@)),
                year_level: self.optional_field(record, self.year_level_idx, Ghost("year_level"@)),
                is_active,
                last_updated_semester_id: None,
            },
        )
    }
}

/// The models of a list of batches, flattened in order.
pub open spec fn flat_upto(
    bs: Seq<Vec<Result<CreateSchoolAccountRequest, TransformError>>>,
    k: int,
) -> Seq<Result<SpecRequest, SpecTransformError>>
    decreases k,
{
    if k <= 0 {
        Seq::empty()
    } else {
        flat_upto(bs, k - 1) + results_view(bs[k - 1]@)
    }
}

pub open spec fn flat_view(bs: Seq<Vec<Result<CreateSchoolAccountRequest, TransformError>>>) -> Seq<
    Result<SpecRequest, SpecTransformError>,
> {
    flat_upto(bs, bs.len() as int)
}

/// Transforms every row, grouped into batches of at most `batch_size` rows.
/// Batch boundaries have no semantic effect: flattening the batches yields
/// exactly the per-row transform results, in file order, whatever the batch
/// size.
pub fn batch_transform_records(
    transformer: &CsvTransformer,
    records: &Vec<Vec<String>>,
    batch_size: usize,
) -> (batches: Vec<Vec<Result<CreateSchoolAccountRequest, TransformError>>>)
    requires
        transformer.wf(),
        batch_size >= 1,
    ensures
        flat_view(batches@) == transforms(transformer.spec_headers(), records.deep_view()),
        forall|i: int| 0 <= i < batches@.len() ==> #[trigger] batches@[i]@.len() <= batch_size,
{
    let ghost hs = transformer.spec_headers();
    let ghost recs = records.deep_view();
    let mut batches: Vec<Vec<Result<CreateSchoolAccountRequest, TransformError>>> = Vec::new();
    let mut current: Vec<Result<CreateSchoolAccountRequest, TransformError>> = Vec::new();
    let mut i: usize = 0;
    while i < records.len()
        invariant
            transformer.wf(),
            hs == transformer.spec_headers(),
            recs == records.deep_view(),
            recs.len() == records@.len(),
            0 <= i <= records@.len(),
            current@.len() < batch_size,
            flat_upto(batches@, batches@.len() as int) + results_view(current@) == transforms_upto(
                hs,
                recs,
                i as int,
            ),
            forall|j: int| 0 <= j < batches@.len() ==> #[trigger] batches@[j]@.len() <= batch_size,
        decreases records@.len() - i,
    {
        let r = transformer.transform_record(&records[i]);
        proof {
            assert(recs[i as int] == records@[i as int].deep_view());
        }
        current.push(r);
        proof {
            assert(flat_upto(batches@, batches@.len() as int) + results_view(current@)
                =~= transforms_upto(hs, recs, i as int + 1));
        }
        if current.len() == batch_size {
            let ghost b0 = batches@;
            let full = current;
            current = Vec::new();
            batches.push(full);
            proof {
                assert(flat_upto(batches@, batches@.len() as int) == flat_upto(
                    batches@,
                    b0.len() as int,
                ) + results_view(batches@[b0.len() as int]@));
                assert(flat_upto(batches@, b0.len() as int) =~= flat_upto(b0, b0.len() as int)) by {
                    lemma_flat_upto_prefix(b0, batches@, b0.len() as int);
                }
                assert(results_view(current@) =~= Seq::<
                    Result<SpecRequest, SpecTransformError>,
                >::empty());
                assert(flat_upto(batches@, batches@.len() as int) + results_view(current@)
                    =~= transforms_upto(hs, recs, i as int + 1));
            }
        }
        i = i + 1;
    }
    if current.len() > 0 {
        let ghost b0 = batches@;
        let ghost c0 = current@;
        batches.push(current);
        proof {
            assert(flat_upto(batches@, b0.len() as int) =~= flat_upto(b0, b0.len() as int)) by {
                lemma_flat_upto_prefix(b0, batches@, b0.len() as int);
            }
            assert(flat_view(batches@) =~= transforms(hs, recs));
        }
    } else {
        proof {
            assert(results_view(current@) =~= Seq::<
                Result<SpecRequest, SpecTransformError>,
            >::empty());
            assert(flat_view(batches@) =~= transforms(hs, recs));
        }
    }
    batches
}

/// `flat_upto` looks only at the first `k` batches, so it is stable under
/// appending more batches.
proof fn lemma_flat_upto_prefix(
    a: Seq<Vec<Result<CreateSchoolAccountRequest, TransformError>>>,
    b: Seq<Vec<Result<CreateSchoolAccountRequest, TransformError>>>,
    k: int,
)
    requires
        0 <= k <= a.len(),
        k <= b.len(),
        forall|j: int| 0 <= j < k ==> a[j] == b[j],
    ensures
        flat_upto(a, k) == flat_upto(b, k),
    decreases k,
{
    if k > 0 {
        lemma_flat_upto_prefix(a, b, k - 1);
    }
}

} // verus!
