use serde_json::Value;
use vstd::prelude::*;
use vstd::string::to_string_from_display_ensures;

use crate::project::same_text;

verus! {

/// What the dataset loader reads of a value inside a row of a JSON matrix:
/// whether it is a number (and so has a floating-point value).
#[derive(Debug, Clone, Copy, PartialEq, Eq, Structural)]
pub enum JsonScalar {
    Number,
    NotNumber,
}

/// What the dataset loader reads of one element of the top-level JSON array.
/// `Float` is a number written with a fraction or exponent, `Integer` one
/// written without; both have a floating-point value.
#[derive(Debug)]
pub enum JsonElement {
    Float,
    Integer,
    Array(Vec<JsonScalar>),
    Other,
}

/// What the dataset loader reads of a parsed JSON document.
#[derive(Debug)]
pub enum JsonDocument {
    Array(Vec<JsonElement>),
    NotArray,
}

/// The layout of a loaded dataset: one vector of the given length, or a
/// matrix given by the length of each row.
#[derive(Debug)]
pub enum VectorShape {
    Single(usize),
    Matrix(Vec<usize>),
}

/// Why a JSON document is not a vector dataset.
#[derive(Debug, Clone, Copy, PartialEq, Eq, Structural)]
pub enum JsonVectorError {
    /// Neither an array of numbers nor an array of arrays.
    NotAVectorOrMatrix,
    /// A vector whose elements are not all numbers.
    FloatExpected,
    /// A matrix with a row that is not an array.
    ArrayOfArraysExpected,
    /// A matrix with a row holding something other than a number.
    FloatExpectedInRow,
}

/// The abstract layout: a vector length or the list of row lengths.
pub enum ShapeView {
    Single(nat),
    Matrix(Seq<nat>),
}

impl View for VectorShape {
    type V = ShapeView;

    open spec fn view(&self) -> ShapeView {
        match self {
            VectorShape::Single(n) => ShapeView::Single(*n as nat),
            VectorShape::Matrix(rows) => ShapeView::Matrix(nat_lengths(rows@)),
        }
    }
}

impl JsonVectorError {
    /// The message the loader reports for this error.
    pub open spec fn spec_message(self) -> Seq<char> {
        match self {
            JsonVectorError::NotAVectorOrMatrix => "JSON File is wrong. Expected an array or an array of arrays."@,
            JsonVectorError::FloatExpected => "Expected a float value"@,
            JsonVectorError::ArrayOfArraysExpected => "Expected an array of arrays"@,
            JsonVectorError::FloatExpectedInRow => "Expected a float value inside the array"@,
        }
    }

    /// The message the loader reports for this error.
    pub fn message(&self) -> (msg: String)
        ensures
            msg@ == self.spec_message(),
    {
        match self {
            JsonVectorError::NotAVectorOrMatrix => "JSON File is wrong. Expected an array or an array of arrays.".to_owned(),
            JsonVectorError::FloatExpected => "Expected a float value".to_owned(),
            JsonVectorError::ArrayOfArraysExpected => "Expected an array of arrays".to_owned(),
            JsonVectorError::FloatExpectedInRow => "Expected a float value inside the array".to_owned(),
        }
    }
}

/// Lengths as natural numbers.
pub open spec fn nat_lengths(v: Seq<usize>) -> Seq<nat> {
    v.map_values(|n: usize| n as nat)
}

/// Whether a top-level element has a floating-point value.
pub open spec fn element_is_number(e: JsonElement) -> bool {
    e is Float || e is Integer
}

/// Whether every value of a row is a number.
pub open spec fn row_all_numbers(row: Seq<JsonScalar>) -> bool {
    forall|j: int| 0 <= j < row.len() ==> row[j] == JsonScalar::Number
}

/// Reads the rows of a matrix in order: each must be an array of numbers;
/// the first row that is not decides the error.
pub open spec fn matrix_row_lengths(elements: Seq<JsonElement>) -> Result<
    Seq<nat>,
    JsonVectorError,
>
    decreases elements.len(),
{
    if elements.len() == 0 {
        Ok(seq![])
    } else {
        match elements[0] {
            JsonElement::Array(row) => if row_all_numbers(row@) {
                match matrix_row_lengths(elements.drop_first()) {
                    Ok(rest) => Ok(seq![row@.len()] + rest),
                    Err(e) => Err(e),
                }
            } else {
                Err(JsonVectorError::FloatExpectedInRow)
            },
            _ => Err(JsonVectorError::ArrayOfArraysExpected),
        }
    }
}

/// The dataset a JSON document holds. An empty array is an empty vector. An
/// array whose first element is a number written as a float is a vector,
/// and all its elements must be numbers. An array whose first element is an
/// array is a matrix. Anything else is refused.
pub open spec fn json_vector_shape(doc: JsonDocument) -> Result<ShapeView, JsonVectorError> {
    match doc {
        JsonDocument::NotArray => Err(JsonVectorError::NotAVectorOrMatrix),
        JsonDocument::Array(elements) => {
            let es = elements@;
            if es.len() == 0 {
                Ok(ShapeView::Single(0))
            } else if es[0] is Float {
                if forall|i: int| 0 <= i < es.len() ==> element_is_number(#[trigger] es[i]) {
                    Ok(ShapeView::Single(es.len()))
                } else {
                    Err(JsonVectorError::FloatExpected)
                }
            } else if es[0] is Array {
                match matrix_row_lengths(es) {
                    Ok(lens) => Ok(ShapeView::Matrix(lens)),
                    Err(e) => Err(e),
                }
            } else {
                Err(JsonVectorError::NotAVectorOrMatrix)
            }
        },
    }
}

/// Whether every value of a row is a number.
fn row_is_numeric(row: &Vec<JsonScalar>) -> (ok: bool)
    ensures
        ok == row_all_numbers(row@),
{
    let mut j: usize = 0;
    while j < row.len()
        invariant
            j <= row.len(),
            forall|k: int| 0 <= k < j ==> row@[k] == JsonScalar::Number,
        decreases row.len() - j,
    {
        if row[j] != JsonScalar::Number {
            return false;
        }
        j = j + 1;
    }
    true
}

/// Checks the rows of a matrix in order and collects their lengths.
fn matrix_rows(elements: &Vec<JsonElement>) -> (res: Result<Vec<usize>, JsonVectorError>)
    ensures
        match (res, matrix_row_lengths(elements@)) {
            (Ok(v), Ok(lens)) => nat_lengths(v@) == lens,
            (Err(e), Err(f)) => e == f,
            _ => false,
        },
{
    let mut lens: Vec<usize> = Vec::new();
    let mut i: usize = 0;
    assert(elements@.skip(0) =~= elements@);
    assert(forall|rest: Seq<nat>|
        #![trigger nat_lengths(lens@) + rest]
        nat_lengths(lens@) + rest =~= rest);
    while i < elements.len()
        invariant
            i <= elements.len(),
            matrix_row_lengths(elements@) == match matrix_row_lengths(elements@.skip(i as int)) {
                Ok(rest) => Ok(nat_lengths(lens@) + rest),
                Err(e) => Err(e),
            },
        decreases elements.len() - i,
    {
        let ghost tail = elements@.skip(i as int);
        assert(tail.drop_first() =~= elements@.skip(i + 1));
        match &elements[i] {
            JsonElement::Array(row) => {
                if !row_is_numeric(row) {
                    return Err(JsonVectorError::FloatExpectedInRow);
                }
                let ghost before = nat_lengths(lens@);
                lens.push(row.len());
                assert(nat_lengths(lens@) =~= before.push(row@.len()));
                assert(forall|rest: Seq<nat>|
                    #![trigger before + (seq![row@.len()] + rest)]
                    before + (seq![row@.len()] + rest) =~= before.push(row@.len()) + rest);
            },
            _ => {
                return Err(JsonVectorError::ArrayOfArraysExpected);
            },
        }
        i = i + 1;
    }
    assert(elements@.skip(i as int) =~= seq![]);
    assert(nat_lengths(lens@) + seq![] =~= nat_lengths(lens@));
    Ok(lens)
}

/// Decides what dataset a JSON document holds (see `json_vector_shape`).
pub fn classify_json_vector(doc: &JsonDocument) -> (res: Result<VectorShape, JsonVectorError>)
    ensures
        match (res, json_vector_shape(*doc)) {
            (Ok(shape), Ok(expected)) => shape@ == expected,
            (Err(e), Err(f)) => e == f,
            _ => false,
        },
{
    match doc {
        JsonDocument::NotArray => Err(JsonVectorError::NotAVectorOrMatrix),
        JsonDocument::Array(elements) => {
            if elements.len() == 0 {
                return Ok(VectorShape::Single(0));
            }
            match &elements[0] {
                JsonElement::Float => {
                    let mut i: usize = 0;
                    while i < elements.len()
                        invariant
                            i <= elements.len(),
                            *doc == JsonDocument::Array(*elements),
                            elements@.len() > 0,
                            elements@[0] is Float,
                            forall|k: int| 0 <= k < i ==> element_is_number(#[trigger] elements@[k]),
                        decreases elements.len() - i,
                    {
                        match &elements[i] {
                            JsonElement::Float => {},
                            JsonElement::Integer => {},
                            _ => {
                                assert(!element_is_number(elements@[i as int]));
                                assert(!(forall|k: int|
                                    0 <= k < elements@.len() ==> element_is_number(
                                        #[trigger] elements@[k],
                                    )));
                                return Err(JsonVectorError::FloatExpected);
                            },
                        }
                        i = i + 1;
                    }
                    Ok(VectorShape::Single(elements.len()))
                },
                JsonElement::Array(_) => {
                    match matrix_rows(elements) {
                        Ok(lens) => Ok(VectorShape::Matrix(lens)),
                        Err(e) => Err(e),
                    }
                },
                _ => Err(JsonVectorError::NotAVectorOrMatrix),
            }
        },
    }
}

/// The document `serde_json::from_slice` parses from `text`, as the dataset
/// loader reads it, or `None` when `text` is not JSON.
pub uninterp spec fn json_text_document(text: Seq<u8>) -> Option<JsonDocument>;

/// Calls `serde_json::from_slice` to parse `text` into a `serde_json::Value`
/// and turns the value into the document the loader reads, variant by
/// variant: a top-level array into `Array` with one element per item (a
/// number whose `is_f64` holds is `Float`, another number `Integer`, an array
/// the numbers-or-not of its items, anything else `Other`), anything else into
/// `NotArray`. The document depends on the text alone.
#[verifier::external_body]
fn parse_json_document(text: &[u8]) -> (res: Result<JsonDocument, serde_json::Error>)
    ensures
        match res {
            Ok(doc) => json_text_document(text@) == Some(doc),
            Err(_) => json_text_document(text@) is None,
        },
{
    let value: Value = serde_json::from_slice(text)?;
    let scalar = |v: &Value| if v.is_number() { JsonScalar::Number } else { JsonScalar::NotNumber };
    let element = |v: &Value| match v {
        Value::Number(n) if n.is_f64() => JsonElement::Float,
        Value::Number(_) => JsonElement::Integer,
        Value::Array(row) => JsonElement::Array(row.iter().map(scalar).collect()),
        _ => JsonElement::Other,
    };
    Ok(match value {
        Value::Array(items) => JsonDocument::Array(items.iter().map(element).collect()),
        _ => JsonDocument::NotArray,
    })
}

/// Why the text of a JSON dataset file gives no dataset.
#[derive(Debug)]
pub enum JsonDatasetError {
    /// The text is not JSON.
    Parse(serde_json::Error),
    /// The document is not a vector dataset.
    Shape(JsonVectorError),
}

impl JsonDatasetError {
    /// The message the loader reports for this error.
    pub fn message(&self) -> (text: String)
        ensures
            match self {
                JsonDatasetError::Parse(e) => exists|t: String|
                    to_string_from_display_ensures::<serde_json::Error>(e, t) && text@
                        == "Failed to parse JSON file: "@ + t@,
                JsonDatasetError::Shape(e) => text@ == e.spec_message(),
            },
    {
        match self {
            JsonDatasetError::Parse(e) => {
                let mut text = "Failed to parse JSON file: ".to_owned();
                let detail = e.to_string();
                text.append(detail.as_str());
                text
            },
            JsonDatasetError::Shape(e) => e.message(),
        }
    }
}

/// Reads the text of a JSON dataset file: text that is not JSON is a parse
/// error; otherwise the parsed document is classified as
/// `classify_json_vector` does.
pub fn json_dataset_shape(text: &[u8]) -> (res: Result<VectorShape, JsonDatasetError>)
    ensures
        match json_text_document(text@) {
            None => res matches Err(JsonDatasetError::Parse(_)),
            Some(doc) => match (res, json_vector_shape(doc)) {
                (Ok(shape), Ok(expected)) => shape@ == expected,
                (Err(JsonDatasetError::Shape(e)), Err(f)) => e == f,
                _ => false,
            },
        },
{
    match parse_json_document(text) {
        Ok(doc) => match classify_json_vector(&doc) {
            Ok(shape) => Ok(shape),
            Err(e) => Err(JsonDatasetError::Shape(e)),
        },
        Err(e) => Err(JsonDatasetError::Parse(e)),
    }
}

/// Row lengths read from a matrix describe its rows one by one.
proof fn lemma_matrix_rows_match(elements: Seq<JsonElement>)
    ensures
        matrix_row_lengths(elements) matches Ok(lens) ==> {
            &&& lens.len() == elements.len()
            &&& forall|i: int|
                0 <= i < elements.len() ==> (#[trigger] elements[i] matches JsonElement::Array(row)
                    && lens[i] == row@.len() && row_all_numbers(row@))
        },
    decreases elements.len(),
{
    if elements.len() > 0 {
        let rest = elements.drop_first();
        lemma_matrix_rows_match(rest);
        if let Ok(lens) = matrix_row_lengths(elements) {
            assert forall|i: int| 0 <= i < elements.len() implies (
            #[trigger] elements[i] matches JsonElement::Array(row) && lens[i] == row@.len()
                && row_all_numbers(row@)) by {
                if i > 0 {
                    assert(elements[i] == rest[i - 1]);
                }
            }
        }
    }
}

/// A document read as a dataset keeps every element: a vector has one value
/// per array element, all numbers, and a matrix has one row per array
/// element, each an array of numbers of the stated length.
pub proof fn lemma_json_shape_covers_document(elements: Seq<JsonElement>, doc: JsonDocument)
    requires
        doc matches JsonDocument::Array(v) && v@ == elements,
    ensures
        json_vector_shape(doc) matches Ok(ShapeView::Single(n)) ==> n == elements.len() && forall|
            i: int,
        | 0 <= i < elements.len() ==> element_is_number(#[trigger] elements[i]),
        json_vector_shape(doc) matches Ok(ShapeView::Matrix(lens)) ==> lens.len() == elements.len()
            && forall|i: int|
            0 <= i < elements.len() ==> (#[trigger] elements[i] matches JsonElement::Array(row)
                && lens[i] == row@.len() && row_all_numbers(row@)),
{
    lemma_matrix_rows_match(elements);
}

/// An array whose first element is a number written as a float, and all of
/// whose elements are numbers, is read as one vector with one value per
/// element, however long it is.
pub proof fn lemma_json_vector_complete(doc: JsonDocument)
    requires
        doc matches JsonDocument::Array(v) && v@.len() > 0 && v@[0] is Float && forall|i: int|
            0 <= i < v@.len() ==> (#[trigger] v@[i] is Float || v@[i] is Integer),
    ensures
        json_vector_shape(doc) == Ok::<ShapeView, JsonVectorError>(
            ShapeView::Single(doc->Array_0@.len()),
        ),
{
    let es = doc->Array_0@;
    assert forall|i: int| 0 <= i < es.len() implies element_is_number(#[trigger] es[i]) by {
        assert(es[i] is Float || es[i] is Integer);
    }
}

/// Rows that are all arrays of numbers are read in full.
proof fn lemma_matrix_rows_complete(elements: Seq<JsonElement>)
    requires
        forall|i: int|
            0 <= i < elements.len() ==> (#[trigger] elements[i] matches JsonElement::Array(row)
                && forall|j: int| 0 <= j < row@.len() ==> row@[j] == JsonScalar::Number),
    ensures
        matrix_row_lengths(elements) is Ok,
    decreases elements.len(),
{
    if elements.len() > 0 {
        let rest = elements.drop_first();
        assert forall|i: int| 0 <= i < rest.len() implies (#[trigger] rest[i] matches JsonElement::Array(row)
            && forall|j: int| 0 <= j < row@.len() ==> row@[j] == JsonScalar::Number) by {
            assert(rest[i] == elements[i + 1]);
        }
        lemma_matrix_rows_complete(rest);
        assert(elements[0] matches JsonElement::Array(row) && row_all_numbers(row@));
    }
}

/// An array whose elements are all arrays of numbers (at least one of them)
/// is read as a matrix with one row per element, each of the length of its
/// array, however many rows there are.
pub proof fn lemma_json_matrix_complete(doc: JsonDocument)
    requires
        doc matches JsonDocument::Array(v) && v@.len() > 0 && forall|i: int|
            0 <= i < v@.len() ==> (#[trigger] v@[i] matches JsonElement::Array(row) && forall|
                j: int,
            | 0 <= j < row@.len() ==> row@[j] == JsonScalar::Number),
    ensures
        json_vector_shape(doc) matches Ok(ShapeView::Matrix(lens)) && lens.len()
            == doc->Array_0@.len() && forall|i: int|
            0 <= i < lens.len() ==> (#[trigger] doc->Array_0@[i] matches JsonElement::Array(row)
                && lens[i] == row@.len()),
{
    let es = doc->Array_0@;
    lemma_matrix_rows_complete(es);
    lemma_matrix_rows_match(es);
    assert(es[0] is Array);
}

/// Whether a top-level element is a row of a matrix: an array of numbers.
pub open spec fn is_numeric_row(e: JsonElement) -> bool {
    e matches JsonElement::Array(row) && forall|j: int|
        0 <= j < row@.len() ==> row@[j] == JsonScalar::Number
}

/// Reading rows stops at the first element that is not an array of numbers:
/// a non-array gives `ArrayOfArraysExpected`, an array holding a non-number
/// gives `FloatExpectedInRow`.
proof fn lemma_matrix_rows_first_bad(elements: Seq<JsonElement>, k: int)
    requires
        0 <= k < elements.len(),
        forall|j: int| 0 <= j < k ==> is_numeric_row(#[trigger] elements[j]),
        !is_numeric_row(elements[k]),
    ensures
        matrix_row_lengths(elements) == Err::<Seq<nat>, JsonVectorError>(
            if elements[k] is Array {
                JsonVectorError::FloatExpectedInRow
            } else {
                JsonVectorError::ArrayOfArraysExpected
            },
        ),
    decreases k,
{
    if k > 0 {
        let rest = elements.drop_first();
        assert forall|j: int| 0 <= j < k - 1 implies is_numeric_row(#[trigger] rest[j]) by {
            assert(rest[j] == elements[j + 1]);
            assert(is_numeric_row(elements[j + 1]));
        }
        assert(rest[k - 1] == elements[k]);
        lemma_matrix_rows_first_bad(rest, k - 1);
        assert(is_numeric_row(elements[0]));
    }
}

/// What a document that is not a dataset is refused with: a non-array, or an
/// array whose first element is neither a float nor an array, is not a
/// vector or matrix; a vector with a non-number is refused for that; a
/// matrix is refused at its first element that is not an array of numbers,
/// for not being an array or for holding a non-number. An empty array is an
/// empty vector.
pub proof fn lemma_json_refusals(doc: JsonDocument)
    ensures
        doc is NotArray ==> json_vector_shape(doc) == Err::<ShapeView, JsonVectorError>(
            JsonVectorError::NotAVectorOrMatrix,
        ),
        doc matches JsonDocument::Array(v) && v@.len() == 0 ==> json_vector_shape(doc) == Ok::<
            ShapeView,
            JsonVectorError,
        >(ShapeView::Single(0)),
        doc matches JsonDocument::Array(v) && v@.len() > 0 && (v@[0] is Integer || v@[0] is Other)
            ==> json_vector_shape(doc) == Err::<ShapeView, JsonVectorError>(
            JsonVectorError::NotAVectorOrMatrix,
        ),
        doc matches JsonDocument::Array(v) && v@.len() > 0 && v@[0] is Float && (exists|i: int|
            0 <= i < v@.len() && (#[trigger] v@[i] is Array || v@[i] is Other))
            ==> json_vector_shape(doc) == Err::<ShapeView, JsonVectorError>(
            JsonVectorError::FloatExpected,
        ),
        forall|k: int|
            #![trigger is_numeric_row(doc->Array_0@[k])]
            doc is Array && 0 <= k < doc->Array_0@.len() && doc->Array_0@[0] is Array && (forall|
                j: int,
            | 0 <= j < k ==> is_numeric_row(#[trigger] doc->Array_0@[j])) && !is_numeric_row(
                doc->Array_0@[k],
            ) ==> json_vector_shape(doc) == Err::<ShapeView, JsonVectorError>(
                if doc->Array_0@[k] is Array {
                    JsonVectorError::FloatExpectedInRow
                } else {
                    JsonVectorError::ArrayOfArraysExpected
                },
            ),
{
    if doc is Array {
        let es = doc->Array_0@;
        if es.len() > 0 && es[0] is Float && (exists|i: int|
            0 <= i < es.len() && (#[trigger] es[i] is Array || es[i] is Other)) {
            let i = choose|i: int| 0 <= i < es.len() && (#[trigger] es[i] is Array || es[i] is Other);
            assert(!element_is_number(es[i]));
        }
        assert forall|k: int|
            #![trigger is_numeric_row(es[k])]
            es[0] is Array && 0 <= k < es.len() && (forall|j: int|
                0 <= j < k ==> is_numeric_row(#[trigger] es[j])) && !is_numeric_row(es[k])
                implies json_vector_shape(doc) == Err::<ShapeView, JsonVectorError>(
            if es[k] is Array {
                JsonVectorError::FloatExpectedInRow
            } else {
                JsonVectorError::ArrayOfArraysExpected
            },
        ) by {
            lemma_matrix_rows_first_bad(es, k);
        }
    }
}

/// The file formats a dataset can be loaded from.
#[derive(Debug, Clone, Copy, PartialEq, Eq, Structural)]
pub enum DatasetFormat {
    Json,
    Npy,
    Unsupported,
}

/// The format of a dataset file, chosen by its extension: `json` or `npy`;
/// any other extension, or none, is not supported.
pub fn dataset_format(extension: Option<&str>) -> (format: DatasetFormat)
    ensures
        format == match extension {
            Some(e) => if e@ == "json"@ {
                DatasetFormat::Json
            } else if e@ == "npy"@ {
                DatasetFormat::Npy
            } else {
                DatasetFormat::Unsupported
            },
            None => DatasetFormat::Unsupported,
        },
{
    match extension {
        Some(e) => {
            if same_text(e, "json") {
                DatasetFormat::Json
            } else if same_text(e, "npy") {
                DatasetFormat::Npy
            } else {
                DatasetFormat::Unsupported
            }
        },
        None => DatasetFormat::Unsupported,
    }
}

impl VectorShape {
    /// How many vectors the dataset holds: one for a single vector, the
    /// number of rows for a matrix.
    pub fn vector_count(&self) -> (count: usize)
        ensures
            count == match self@ {
                ShapeView::Single(_) => 1,
                ShapeView::Matrix(rows) => rows.len(),
            },
    {
        match self {
            VectorShape::Single(_) => 1,
            VectorShape::Matrix(rows) => rows.len(),
        }
    }

    /// The vector whose statistics are shown for a selected index: a single
    /// vector answers only index 0, a matrix answers the row at that index;
    /// any other index selects nothing.
    pub fn select_vector(&self, index: i32) -> (selected: Option<usize>)
        ensures
            selected == (if 0 <= index < match self@ {
                ShapeView::Single(_) => 1,
                ShapeView::Matrix(rows) => rows.len(),
            } {
                Some(index as usize)
            } else {
                None
            }),
    {
        if index < 0 {
            return None;
        }
        let i = index as usize;
        if i < self.vector_count() {
            Some(i)
        } else {
            None
        }
    }
}

} // verus!
