//! Input-schema validation: the packed record layouts the engine accepts,
//! and the decision logic that compares an externally supplied array
//! description against the expected layout and names the first mismatch.
//!
//! The driver extracts from the foreign array object a plain report (its
//! dimensionality, whether it is structured, and per expected field whether a
//! field of that name exists, whether its type matches, and its byte offset);
//! the verified code here decides which error, if any, that report earns.

use vstd::prelude::*;
use vstd::string::StrSliceExecFns;

verus! {

/// The record layouts that event arrays may arrive in.
#[derive(Debug, Clone, Copy, PartialEq, Eq, Structural)]
pub enum ArrayType {
    Dvs,
    AedatImu,
    AedatTrigger,
    Dat,
    EsGeneric,
    EsAtis,
    EsColor,
    EvtTrigger,
}

/// The scalar type of one record field.  `F32` only names the foreign
/// 32-bit floating-point dtype; no such value is ever handled here.
#[derive(Debug, Clone, Copy, PartialEq, Eq, Structural)]
pub enum FieldType {
    Empty,
    Bool,
    F32,
    U8,
    U16,
    U64,
    Object,
}

/// Model of one field of a record layout.
#[verifier::ext_equal]
pub ghost struct FieldModel {
    pub name: Seq<char>,
    pub title: Option<Seq<char>>,
    pub ftype: FieldType,
}

/// One field of a record layout: a NUL-terminated name (the driver hands it
/// to C), an optional short title, and the field's scalar type.
#[derive(Debug, Clone, Copy, PartialEq, Eq)]
pub struct Field {
    pub null_terminated_name: &'static str,
    pub title: Option<&'static str>,
    pub field_type: FieldType,
}

/// The view of an optional string.
pub open spec fn spec_title_view(t: Option<&str>) -> Option<Seq<char>> {
    match t {
        Some(s) => Some(s@),
        Option::None => Option::None,
    }
}

impl View for Field {
    type V = FieldModel;

    open spec fn view(&self) -> FieldModel {
        FieldModel {
            name: self.null_terminated_name@,
            title: spec_title_view(self.title),
            ftype: self.field_type,
        }
    }
}

/// Size in bytes of a field in the packed record layout; an `Object` field
/// is pointer sized, eight bytes on the supported targets.
pub open spec fn spec_field_size(t: FieldType) -> int {
    match t {
        FieldType::Empty => 0,
        FieldType::Bool => 1,
        FieldType::F32 => 4,
        FieldType::U8 => 1,
        FieldType::U16 => 2,
        FieldType::U64 => 8,
        FieldType::Object => 8,
    }
}

/// A field name with its trailing NUL stripped.
pub open spec fn spec_field_name(name: Seq<char>) -> Seq<char> {
    if name.len() == 0 {
        name
    } else {
        name.subrange(0, name.len() - 1)
    }
}

impl Field {
    /// Assemble a field.
    pub fn new(null_terminated_name: &'static str, title: Option<&'static str>, field_type:
        FieldType) -> (r: Field)
        ensures
            r@ == (FieldModel {
                name: null_terminated_name@,
                title: spec_title_view(title),
                ftype: field_type,
            }),
    {
        Field { null_terminated_name, title, field_type }
    }

    /// Executable form of [`spec_field_size`].
    pub fn size(&self) -> (r: usize)
        ensures
            r as int == spec_field_size(self@.ftype),
    {
        match self.field_type {
            FieldType::Empty => 0,
            FieldType::Bool => 1,
            FieldType::F32 => 4,
            FieldType::U8 => 1,
            FieldType::U16 => 2,
            FieldType::U64 => 8,
            FieldType::Object => 8,
        }
    }

    /// The field's name without the trailing NUL.
    pub fn name(&self) -> (r: String)
        ensures
            r@ == spec_field_name(self@.name),
    {
        let l = self.null_terminated_name.unicode_len();
        if l == 0 {
            let r = "".to_owned();
            proof {
                reveal_strlit("");
                assert(r@ =~= spec_field_name(self@.name));
            }
            r
        } else {
            self.null_terminated_name.substring_char(0, l - 1).to_owned()
        }
    }
}

/// Every record layout is padded to this many field slots.
pub const FIELD_SLOTS: usize = 11;

/// The ordered field layout of one array type: the active fields first, the
/// remaining slots filled with empty fields.
#[derive(Debug, Clone)]
pub struct Fields(Vec<Field>);

impl View for Fields {
    type V = Seq<FieldModel>;

    closed spec fn view(&self) -> Seq<FieldModel> {
        self.0@.map_values(|f: Field| f@)
    }
}

/// A nameless empty field, used to pad the layout tables.
pub open spec fn spec_empty_field() -> FieldModel {
    FieldModel { name: "\0"@, title: Option::None, ftype: FieldType::Empty }
}

/// An untitled field model.
pub open spec fn spec_plain_field(name: Seq<char>, ftype: FieldType) -> FieldModel {
    FieldModel { name, title: Option::None, ftype }
}

/// The active (non-empty) fields of each record layout, in order.
pub open spec fn spec_active_fields(a: ArrayType) -> Seq<FieldModel> {
    match a {
        ArrayType::Dvs => seq![
            spec_plain_field("t\0"@, FieldType::U64),
            spec_plain_field("x\0"@, FieldType::U16),
            spec_plain_field("y\0"@, FieldType::U16),
            FieldModel { name: "on\0"@, title: Some("p"@), ftype: FieldType::Bool },
        ],
        ArrayType::AedatImu => seq![
            spec_plain_field("t\0"@, FieldType::U64),
            spec_plain_field("temperature\0"@, FieldType::F32),
            spec_plain_field("accelerometer_x\0"@, FieldType::F32),
            spec_plain_field("accelerometer_y\0"@, FieldType::F32),
            spec_plain_field("accelerometer_z\0"@, FieldType::F32),
            spec_plain_field("gyroscope_x\0"@, FieldType::F32),
            spec_plain_field("gyroscope_y\0"@, FieldType::F32),
            spec_plain_field("gyroscope_z\0"@, FieldType::F32),
            spec_plain_field("magnetometer_x\0"@, FieldType::F32),
            spec_plain_field("magnetometer_y\0"@, FieldType::F32),
            spec_plain_field("magnetometer_z\0"@, FieldType::F32),
        ],
        ArrayType::AedatTrigger => seq![
            spec_plain_field("t\0"@, FieldType::U64),
            spec_plain_field("source\0"@, FieldType::U8),
        ],
        ArrayType::Dat => seq![
            spec_plain_field("t\0"@, FieldType::U64),
            spec_plain_field("x\0"@, FieldType::U16),
            spec_plain_field("y\0"@, FieldType::U16),
            spec_plain_field("payload\0"@, FieldType::U8),
        ],
        ArrayType::EsGeneric => seq![
            spec_plain_field("t\0"@, FieldType::U64),
            spec_plain_field("bytes\0"@, FieldType::Object),
        ],
        ArrayType::EsAtis => seq![
            spec_plain_field("t\0"@, FieldType::U64),
            spec_plain_field("x\0"@, FieldType::U16),
            spec_plain_field("y\0"@, FieldType::U16),
            FieldModel { name: "exposure\0"@, title: Some("e"@), ftype: FieldType::Bool },
            FieldModel { name: "polarity\0"@, title: Some("p"@), ftype: FieldType::Bool },
        ],
        ArrayType::EsColor => seq![
            spec_plain_field("t\0"@, FieldType::U64),
            spec_plain_field("x\0"@, FieldType::U16),
            spec_plain_field("y\0"@, FieldType::U16),
            spec_plain_field("r\0"@, FieldType::Bool),
            spec_plain_field("g\0"@, FieldType::Bool),
            spec_plain_field("b\0"@, FieldType::Bool),
        ],
        ArrayType::EvtTrigger => seq![
            spec_plain_field("t\0"@, FieldType::U64),
            spec_plain_field("source\0"@, FieldType::U8),
            spec_plain_field("rising\0"@, FieldType::Bool),
        ],
    }
}

/// The full padded layout table of one array type.
pub open spec fn spec_fields(a: ArrayType) -> Seq<FieldModel> {
    spec_active_fields(a) + Seq::new(
        (FIELD_SLOTS - spec_active_fields(a).len()) as nat,
        |i: int| spec_empty_field(),
    )
}

/// No active field of any layout is empty, and each layout fits the slots.
pub proof fn lemma_active_fields_wf(a: ArrayType)
    ensures
        0 < spec_active_fields(a).len() <= FIELD_SLOTS,
        forall|k: int|
            0 <= k < spec_active_fields(a).len() ==> (#[trigger] spec_active_fields(a)[k]).ftype
                != FieldType::Empty,
{
    match a {
        ArrayType::Dvs => {
            assert forall|k: int|
                0 <= k < spec_active_fields(a).len() implies (#[trigger] spec_active_fields(
                a,
            )[k]).ftype != FieldType::Empty by {}
        },
        ArrayType::AedatImu => {
            assert forall|k: int|
                0 <= k < spec_active_fields(a).len() implies (#[trigger] spec_active_fields(
                a,
            )[k]).ftype != FieldType::Empty by {}
        },
        ArrayType::AedatTrigger => {
            assert forall|k: int|
                0 <= k < spec_active_fields(a).len() implies (#[trigger] spec_active_fields(
                a,
            )[k]).ftype != FieldType::Empty by {}
        },
        ArrayType::Dat => {
            assert forall|k: int|
                0 <= k < spec_active_fields(a).len() implies (#[trigger] spec_active_fields(
                a,
            )[k]).ftype != FieldType::Empty by {}
        },
        ArrayType::EsGeneric => {
            assert forall|k: int|
                0 <= k < spec_active_fields(a).len() implies (#[trigger] spec_active_fields(
                a,
            )[k]).ftype != FieldType::Empty by {}
        },
        ArrayType::EsAtis => {
            assert forall|k: int|
                0 <= k < spec_active_fields(a).len() implies (#[trigger] spec_active_fields(
                a,
            )[k]).ftype != FieldType::Empty by {}
        },
        ArrayType::EsColor => {
            assert forall|k: int|
                0 <= k < spec_active_fields(a).len() implies (#[trigger] spec_active_fields(
                a,
            )[k]).ftype != FieldType::Empty by {}
        },
        ArrayType::EvtTrigger => {
            assert forall|k: int|
                0 <= k < spec_active_fields(a).len() implies (#[trigger] spec_active_fields(
                a,
            )[k]).ftype != FieldType::Empty by {}
        },
    }
}

impl ArrayType {
    /// Build the full padded field table of this array type.
    pub fn fields(self) -> (r: Fields)
        ensures
            r@ == spec_fields(self),
    {
        let mut v: Vec<Field> = Vec::new();
        match self {
            ArrayType::Dvs => {
                v.push(Field::new("t\0", Option::None, FieldType::U64));
                v.push(Field::new("x\0", Option::None, FieldType::U16));
                v.push(Field::new("y\0", Option::None, FieldType::U16));
                v.push(Field::new("on\0", Some("p"), FieldType::Bool));
            },
            ArrayType::AedatImu => {
                v.push(Field::new("t\0", Option::None, FieldType::U64));
                v.push(Field::new("temperature\0", Option::None, FieldType::F32));
                v.push(Field::new("accelerometer_x\0", Option::None, FieldType::F32));
                v.push(Field::new("accelerometer_y\0", Option::None, FieldType::F32));
                v.push(Field::new("accelerometer_z\0", Option::None, FieldType::F32));
                v.push(Field::new("gyroscope_x\0", Option::None, FieldType::F32));
                v.push(Field::new("gyroscope_y\0", Option::None, FieldType::F32));
                v.push(Field::new("gyroscope_z\0", Option::None, FieldType::F32));
                v.push(Field::new("magnetometer_x\0", Option::None, FieldType::F32));
                v.push(Field::new("magnetometer_y\0", Option::None, FieldType::F32));
                v.push(Field::new("magnetometer_z\0", Option::None, FieldType::F32));
            },
            ArrayType::AedatTrigger => {
                v.push(Field::new("t\0", Option::None, FieldType::U64));
                v.push(Field::new("source\0", Option::None, FieldType::U8));
            },
            ArrayType::Dat => {
                v.push(Field::new("t\0", Option::None, FieldType::U64));
                v.push(Field::new("x\0", Option::None, FieldType::U16));
                v.push(Field::new("y\0", Option::None, FieldType::U16));
                v.push(Field::new("payload\0", Option::None, FieldType::U8));
            },
            ArrayType::EsGeneric => {
                v.push(Field::new("t\0", Option::None, FieldType::U64));
                v.push(Field::new("bytes\0", Option::None, FieldType::Object));
            },
            ArrayType::EsAtis => {
                v.push(Field::new("t\0", Option::None, FieldType::U64));
                v.push(Field::new("x\0", Option::None, FieldType::U16));
                v.push(Field::new("y\0", Option::None, FieldType::U16));
                v.push(Field::new("exposure\0", Some("e"), FieldType::Bool));
                v.push(Field::new("polarity\0", Some("p"), FieldType::Bool));
            },
            ArrayType::EsColor => {
                v.push(Field::new("t\0", Option::None, FieldType::U64));
                v.push(Field::new("x\0", Option::None, FieldType::U16));
                v.push(Field::new("y\0", Option::None, FieldType::U16));
                v.push(Field::new("r\0", Option::None, FieldType::Bool));
                v.push(Field::new("g\0", Option::None, FieldType::Bool));
                v.push(Field::new("b\0", Option::None, FieldType::Bool));
            },
            ArrayType::EvtTrigger => {
                v.push(Field::new("t\0", Option::None, FieldType::U64));
                v.push(Field::new("source\0", Option::None, FieldType::U8));
                v.push(Field::new("rising\0", Option::None, FieldType::Bool));
            },
        }
        proof {
            lemma_active_fields_wf(self);
            assert(v@.map_values(|f: Field| f@) =~= spec_active_fields(self));
            assert forall|i: int| 0 <= i < v@.len() implies (#[trigger] v@[i])@
                == spec_active_fields(self)[i] by {
                assert(v@.map_values(|f: Field| f@)[i] == v@[i]@);
            }
        }
        let ghost base = v@.len() as int;
        while v.len() < FIELD_SLOTS
            invariant
                base == spec_active_fields(self).len(),
                base <= v@.len() <= FIELD_SLOTS,
                forall|i: int|
                    0 <= i < v@.len() ==> (#[trigger] v@[i])@ == (if i < base {
                        spec_active_fields(self)[i]
                    } else {
                        spec_empty_field()
                    }),
            decreases FIELD_SLOTS - v@.len(),
        {
            v.push(Field::new("\0", Option::None, FieldType::Empty));
        }
        let r = Fields(v);
        proof {
            assert forall|i: int| 0 <= i < r@.len() implies r@[i] == spec_fields(self)[i] by {
                assert(r@[i] == v@[i]@);
            }
            assert(r@ =~= spec_fields(self));
        }
        r
    }
}

impl Fields {
    /// The number of active fields: the index of the first empty slot, or
    /// the full slot count if none is empty.
    pub fn len(&self) -> (r: usize)
        ensures
            r <= self@.len(),
            forall|k: int| 0 <= k < r ==> (#[trigger] self@[k]).ftype != FieldType::Empty,
            r < self@.len() ==> self@[r as int].ftype == FieldType::Empty,
    {
        let mut index: usize = 0;
        while index < self.0.len()
            invariant
                index <= self.0@.len(),
                forall|k: int| 0 <= k < index ==> (#[trigger] self@[k]).ftype != FieldType::Empty,
            decreases self.0@.len() - index,
        {
            if matches!(self.0[index].field_type, FieldType::Empty) {
                return index;
            }
            index += 1;
        }
        index
    }

    /// The field in slot `k`.
    pub fn field_at(&self, k: usize) -> (r: Field)
        requires
            k < self@.len(),
        ensures
            r@ == self@[k as int],
    {
        self.0[k]
    }

    /// An iterator over the active fields.
    pub fn iter(&self) -> (r: FieldIterator)
        ensures
            r.wf(),
            r.spec_fields() == self@,
            r.spec_index() == 0,
            r.spec_length() <= self@.len(),
            forall|k: int|
                0 <= k < r.spec_length() ==> (#[trigger] self@[k]).ftype != FieldType::Empty,
    {
        let length = self.len();
        FieldIterator { fields: self, index: 0, length }
    }
}

/// Hands out the active fields of a layout one at a time.
pub struct FieldIterator<'a> {
    fields: &'a Fields,
    index: usize,
    length: usize,
}

impl<'a> FieldIterator<'a> {
    /// The layout being walked.
    pub closed spec fn spec_fields(&self) -> Seq<FieldModel> {
        self.fields@
    }

    /// The next slot to hand out.
    pub closed spec fn spec_index(&self) -> int {
        self.index as int
    }

    /// The number of active fields to hand out.
    pub closed spec fn spec_length(&self) -> int {
        self.length as int
    }

    /// The cursor never passes the active length, which fits the layout.
    pub closed spec fn wf(&self) -> bool {
        self.index <= self.length <= self.fields@.len()
    }

    /// The next active field, or nothing once all were handed out.
    pub fn next(&mut self) -> (r: Option<Field>)
        requires
            old(self).wf(),
        ensures
            final(self).wf(),
            final(self).spec_fields() == old(self).spec_fields(),
            final(self).spec_length() == old(self).spec_length(),
            old(self).spec_index() < old(self).spec_length() ==> {
                &&& final(self).spec_index() == old(self).spec_index() + 1
                &&& r matches Some(f) && f@ == old(self).spec_fields()[old(self).spec_index()]
            },
            old(self).spec_index() >= old(self).spec_length() ==> r is None
                && final(self).spec_index() == old(self).spec_index(),
    {
        if self.index < self.length {
            self.index += 1;
            Some(self.fields.field_at(self.index - 1))
        } else {
            Option::None
        }
    }
}

/// Why an externally supplied array was rejected.  The driver renders each
/// variant into the user-facing message; the payloads carry what the message
/// needs.
#[derive(Debug)]
pub enum CheckArrayError {
    /// The object is not an array at all.
    PyArrayCheck,
    /// The array is not one-dimensional; the payload holds its shape.
    Dimensions(Vec<i64>),
    /// The array is not structured (it has no record fields).
    NotStructured,
    /// The named expected field is absent.
    MissingField(String),
    /// The named field exists with the wrong type.
    Field { name: String, expected_type: String, actual_type: String },
    /// The named field exists at the wrong byte offset.
    FieldOffset { name: String, expected_offset: i64, actual_offset: i64 },
    /// The array has fields beyond the expected ones.
    ExtraFields { expected: Vec<String>, actual: Vec<String> },
}

/// Model of [`CheckArrayError`].
#[verifier::ext_equal]
pub ghost enum CheckErrorModel {
    PyArrayCheck,
    Dimensions(Seq<i64>),
    NotStructured,
    MissingField(Seq<char>),
    Field { name: Seq<char>, expected_type: Seq<char>, actual_type: Seq<char> },
    FieldOffset { name: Seq<char>, expected_offset: int, actual_offset: i64 },
    ExtraFields { expected: Seq<Seq<char>>, actual: Seq<Seq<char>> },
}

impl View for CheckArrayError {
    type V = CheckErrorModel;

    open spec fn view(&self) -> CheckErrorModel {
        match self {
            CheckArrayError::PyArrayCheck => CheckErrorModel::PyArrayCheck,
            CheckArrayError::Dimensions(d) => CheckErrorModel::Dimensions(d@),
            CheckArrayError::NotStructured => CheckErrorModel::NotStructured,
            CheckArrayError::MissingField(n) => CheckErrorModel::MissingField(n@),
            CheckArrayError::Field { name, expected_type, actual_type } => CheckErrorModel::Field {
                name: name@,
                expected_type: expected_type@,
                actual_type: actual_type@,
            },
            CheckArrayError::FieldOffset { name, expected_offset, actual_offset } =>
                CheckErrorModel::FieldOffset {
                name: name@,
                expected_offset: *expected_offset as int,
                actual_offset: *actual_offset,
            },
            CheckArrayError::ExtraFields { expected, actual } => CheckErrorModel::ExtraFields {
                expected: expected@.map_values(|s: String| s@),
                actual: actual@.map_values(|s: String| s@),
            },
        }
    }
}

/// What the driver found out about one expected field of the foreign array:
/// whether a field of that name exists, whether its type (and byte order)
/// matches the expected one, the rendered type names for the error message,
/// and the field's byte offset in the record.
pub struct FieldReport {
    pub found: bool,
    pub type_matches: bool,
    pub expected_type: String,
    pub actual_type: String,
    pub actual_offset: i64,
}

/// Model of [`FieldReport`].
#[verifier::ext_equal]
pub ghost struct FieldReportModel {
    pub found: bool,
    pub type_matches: bool,
    pub expected_type: Seq<char>,
    pub actual_type: Seq<char>,
    pub actual_offset: i64,
}

impl View for FieldReport {
    type V = FieldReportModel;

    open spec fn view(&self) -> FieldReportModel {
        FieldReportModel {
            found: self.found,
            type_matches: self.type_matches,
            expected_type: self.expected_type@,
            actual_type: self.actual_type@,
            actual_offset: self.actual_offset,
        }
    }
}

/// What the driver found out about the foreign array as a whole.
pub struct ArrayReport {
    pub is_numpy_array: bool,
    pub dimensions: Vec<i64>,
    pub is_structured: bool,
    pub fields: Vec<FieldReport>,
    pub actual_names: Vec<String>,
}

/// Model of [`ArrayReport`].
#[verifier::ext_equal]
pub ghost struct ArrayReportModel {
    pub is_numpy_array: bool,
    pub dimensions: Seq<i64>,
    pub is_structured: bool,
    pub fields: Seq<FieldReportModel>,
    pub actual_names: Seq<Seq<char>>,
}

impl View for ArrayReport {
    type V = ArrayReportModel;

    open spec fn view(&self) -> ArrayReportModel {
        ArrayReportModel {
            is_numpy_array: self.is_numpy_array,
            dimensions: self.dimensions@,
            is_structured: self.is_structured,
            fields: self.fields@.map_values(|f: FieldReport| f@),
            actual_names: self.actual_names@.map_values(|s: String| s@),
        }
    }
}

/// The byte offset at which expected field `k` must start: the sum of the
/// sizes of the fields before it.
pub open spec fn spec_expected_offset(fields: Seq<FieldModel>, k: int) -> int
    decreases k,
{
    if k <= 0 {
        0
    } else {
        spec_expected_offset(fields, k - 1) + spec_field_size(fields[k - 1].ftype)
    }
}

/// Expected offsets stay within eight bytes per field.
pub proof fn lemma_expected_offset_bounds(fields: Seq<FieldModel>, k: int)
    requires
        0 <= k,
    ensures
        0 <= spec_expected_offset(fields, k) <= 8 * k,
    decreases k,
{
    if k > 0 {
        lemma_expected_offset_bounds(fields, k - 1);
    }
}

/// The first complaint, if any, about the expected fields from index `k` on:
/// a missing field, then a type mismatch, then an offset mismatch, checked in
/// order.
pub open spec fn spec_check_fields(
    fields: Seq<FieldModel>,
    reps: Seq<FieldReportModel>,
    k: int,
) -> Result<(), CheckErrorModel>
    decreases fields.len() - k,
{
    if k < 0 || k >= fields.len() {
        Ok(())
    } else {
        let f = fields[k];
        let rep = reps[k];
        if !rep.found {
            Err(CheckErrorModel::MissingField(spec_field_name(f.name)))
        } else if !rep.type_matches {
            Err(
                CheckErrorModel::Field {
                    name: spec_field_name(f.name),
                    expected_type: rep.expected_type,
                    actual_type: rep.actual_type,
                },
            )
        } else if rep.actual_offset as int != spec_expected_offset(fields, k) {
            Err(
                CheckErrorModel::FieldOffset {
                    name: spec_field_name(f.name),
                    expected_offset: spec_expected_offset(fields, k),
                    actual_offset: rep.actual_offset,
                },
            )
        } else {
            spec_check_fields(fields, reps, k + 1)
        }
    }
}

/// The names (NUL stripped) of a layout's fields.
pub open spec fn spec_expected_names(fields: Seq<FieldModel>) -> Seq<Seq<char>> {
    fields.map_values(|f: FieldModel| spec_field_name(f.name))
}

/// The full validation verdict on an array report: not an array, then wrong
/// dimensionality, then not structured, then the first per-field complaint,
/// then a field-count mismatch; otherwise the array is accepted.
pub open spec fn spec_check_array(a: ArrayType, rep: ArrayReportModel) -> Result<
    (),
    CheckErrorModel,
> {
    let active = spec_active_fields(a);
    if !rep.is_numpy_array {
        Err(CheckErrorModel::PyArrayCheck)
    } else if rep.dimensions.len() != 1 {
        Err(CheckErrorModel::Dimensions(rep.dimensions))
    } else if !rep.is_structured {
        Err(CheckErrorModel::NotStructured)
    } else {
        match spec_check_fields(active, rep.fields, 0) {
            Err(e) => Err(e),
            Ok(()) => if rep.actual_names.len() != active.len() {
                Err(
                    CheckErrorModel::ExtraFields {
                        expected: spec_expected_names(active),
                        actual: rep.actual_names,
                    },
                )
            } else {
                Ok(())
            },
        }
    }
}

/// The model of a validation result.
pub open spec fn spec_result_view(r: Result<(), CheckArrayError>) -> Result<
    (),
    CheckErrorModel,
> {
    match r {
        Ok(()) => Ok(()),
        Err(e) => Err(e@),
    }
}

/// Validate an array report against the expected layout of `array_type` and
/// name the first mismatch, exactly as [`spec_check_array`] decides it.
pub fn check_array(array_type: ArrayType, report: ArrayReport) -> (r: Result<
    (),
    CheckArrayError,
>)
    requires
        report@.fields.len() == spec_active_fields(array_type).len(),
    ensures
        spec_result_view(r) == spec_check_array(array_type, report@),
{
    let ghost active = spec_active_fields(array_type);
    let ghost rep0 = report@;
    let fields = array_type.fields();
    let count = fields.len();
    proof {
        lemma_active_fields_wf(array_type);
        let pad = Seq::new((FIELD_SLOTS - active.len()) as nat, |i: int| spec_empty_field());
        assert(fields@ == active + pad);
        if (count as int) < active.len() {
            assert(fields@[count as int] == (active + pad)[count as int]);
            assert(fields@[count as int].ftype != FieldType::Empty);
            assert(false);
        }
        if (count as int) > active.len() {
            assert(fields@[active.len() as int] == (active + pad)[active.len() as int]);
            assert(fields@[active.len() as int].ftype == FieldType::Empty);
            assert(false);
        }
        assert(count == active.len());
    }
    if !report.is_numpy_array {
        return Err(CheckArrayError::PyArrayCheck);
    }
    if report.dimensions.len() != 1 {
        return Err(CheckArrayError::Dimensions(report.dimensions));
    }
    if !report.is_structured {
        return Err(CheckArrayError::NotStructured);
    }
    let mut freps = report.fields;
    let mut expected_offset: i64 = 0;
    let mut k: usize = 0;
    while k < count
        invariant
            active == spec_active_fields(array_type),
            count == active.len(),
            fields@ == spec_fields(array_type),
            rep0 == report@,
            rep0.is_numpy_array,
            rep0.dimensions.len() == 1,
            rep0.is_structured,
            k <= count,
            freps@.len() == count - k,
            freps@.map_values(|f: FieldReport| f@) =~= rep0.fields.skip(k as int),
            rep0.fields.len() == count,
            expected_offset as int == spec_expected_offset(active, k as int),
            0 <= expected_offset <= 8 * k,
            spec_check_fields(active, rep0.fields, 0) == spec_check_fields(
                active,
                rep0.fields,
                k as int,
            ),
        decreases count - k,
    {
        let f = fields.field_at(k);
        proof {
            assert(fields@[k as int] == active.add(
                Seq::new((FIELD_SLOTS - active.len()) as nat, |i: int| spec_empty_field()),
            )[k as int]);
            assert(f@ == active[k as int]);
            assert(freps@.map_values(|fr: FieldReport| fr@)[0] == rep0.fields[k as int]);
        }
        let ghost freps_pre = freps@;
        let frep = freps.remove(0);
        proof {
            let mapped_pre = freps_pre.map_values(|fr: FieldReport| fr@);
            assert(mapped_pre[0] == freps_pre[0]@);
            assert(mapped_pre[0] == rep0.fields.skip(k as int)[0]);
        }
        assert(frep@ == rep0.fields[k as int]);
        if !frep.found {
            return Err(CheckArrayError::MissingField(f.name()));
        }
        if !frep.type_matches {
            return Err(
                CheckArrayError::Field {
                    name: f.name(),
                    expected_type: frep.expected_type,
                    actual_type: frep.actual_type,
                },
            );
        }
        if frep.actual_offset != expected_offset {
            return Err(
                CheckArrayError::FieldOffset {
                    name: f.name(),
                    expected_offset,
                    actual_offset: frep.actual_offset,
                },
            );
        }
        proof {
            lemma_expected_offset_bounds(active, k as int + 1);
            let mapped = freps@.map_values(|fr: FieldReport| fr@);
            let mapped_pre = freps_pre.map_values(|fr: FieldReport| fr@);
            assert forall|i: int| 0 <= i < mapped.len() implies #[trigger] mapped[i]
                == rep0.fields.skip(k as int + 1)[i] by {
                assert(mapped[i] == freps@[i]@);
                assert(freps@[i] == freps_pre[i + 1]);
                assert(mapped_pre[i + 1] == freps_pre[i + 1]@);
                assert(mapped_pre[i + 1] == rep0.fields.skip(k as int)[i + 1]);
            }
            assert(mapped =~= rep0.fields.skip(k as int + 1));
        }
        expected_offset = expected_offset + f.size() as i64;
        k += 1;
    }
    if report.actual_names.len() != count {
        let mut expected: Vec<String> = Vec::new();
        let mut i: usize = 0;
        while i < count
            invariant
                active == spec_active_fields(array_type),
                count == active.len(),
                fields@ == spec_fields(array_type),
                i <= count,
                expected@.len() == i,
                forall|j: int|
                    0 <= j < i ==> (#[trigger] expected@[j])@ == spec_field_name(active[j].name),
            decreases count - i,
        {
            let f = fields.field_at(i);
            proof {
                assert(fields@[i as int] == active.add(
                    Seq::new((FIELD_SLOTS - active.len()) as nat, |x: int| spec_empty_field()),
                )[i as int]);
            }
            expected.push(f.name());
            i += 1;
        }
        proof {
            assert forall|j: int| 0 <= j < count implies expected@.map_values(|s: String| s@)[j]
                == spec_expected_names(active)[j] by {
                assert(expected@.map_values(|s: String| s@)[j] == expected@[j]@);
            }
            assert(expected@.map_values(|s: String| s@) =~= spec_expected_names(active));
        }
        return Err(CheckArrayError::ExtraFields { expected, actual: report.actual_names });
    }
    Ok(())
}

/// Law: the validation succeeds exactly when the report is a structured
/// one-dimensional array whose every expected field is present with the right
/// type at the right offset and which has no extra fields.
pub proof fn lemma_check_fields_ok(fields: Seq<FieldModel>, reps: Seq<FieldReportModel>, k: int)
    requires
        0 <= k <= fields.len(),
    ensures
        spec_check_fields(fields, reps, k) is Ok <==> forall|j: int|
            k <= j < fields.len() ==> {
                let rep = #[trigger] reps[j];
                &&& rep.found
                &&& rep.type_matches
                &&& rep.actual_offset as int == spec_expected_offset(fields, j)
            },
    decreases fields.len() - k,
{
    if k < fields.len() {
        lemma_check_fields_ok(fields, reps, k + 1);
    }
}

/// Law: exactly when everything matches is the array accepted.
pub proof fn lemma_check_array_ok(a: ArrayType, rep: ArrayReportModel)
    ensures
        spec_check_array(a, rep) is Ok <==> {
            &&& rep.is_numpy_array
            &&& rep.dimensions.len() == 1
            &&& rep.is_structured
            &&& forall|j: int|
                0 <= j < spec_active_fields(a).len() ==> {
                    let frep = #[trigger] rep.fields[j];
                    &&& frep.found
                    &&& frep.type_matches
                    &&& frep.actual_offset as int == spec_expected_offset(spec_active_fields(a), j)
                }
            &&& rep.actual_names.len() == spec_active_fields(a).len()
        },
{
    lemma_check_fields_ok(spec_active_fields(a), rep.fields, 0);
}

} // verus!
