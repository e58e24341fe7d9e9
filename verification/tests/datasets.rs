use veal::dataset::classify_json_vector;
use veal::dataset::dataset_format;
use veal::dataset::json_dataset_shape;
use veal::dataset::JsonDatasetError;
use veal::dataset::DatasetFormat;
use veal::dataset::JsonDocument;
use veal::dataset::JsonElement;
use veal::dataset::JsonScalar;
use veal::dataset::JsonVectorError;
use veal::dataset::VectorShape;

fn err_of(doc: JsonDocument) -> JsonVectorError {
    match classify_json_vector(&doc) {
        Err(e) => e,
        Ok(s) => panic!("expected an error, got {:?}", s),
    }
}

#[test]
fn empty_array_is_empty_vector() {
    assert!(matches!(classify_json_vector(&JsonDocument::Array(vec![])), Ok(VectorShape::Single(0))));
}

#[test]
fn float_first_array_is_vector() {
    let doc = JsonDocument::Array(vec![JsonElement::Float, JsonElement::Integer, JsonElement::Float]);
    assert!(matches!(classify_json_vector(&doc), Ok(VectorShape::Single(3))));
}

#[test]
fn integer_first_array_is_refused() {
    let doc = JsonDocument::Array(vec![JsonElement::Integer, JsonElement::Float]);
    assert_eq!(err_of(doc), JsonVectorError::NotAVectorOrMatrix);
}

#[test]
fn vector_with_non_number_is_refused() {
    let doc = JsonDocument::Array(vec![JsonElement::Float, JsonElement::Other]);
    assert_eq!(err_of(doc), JsonVectorError::FloatExpected);
    let doc = JsonDocument::Array(vec![JsonElement::Float, JsonElement::Array(vec![])]);
    assert_eq!(err_of(doc), JsonVectorError::FloatExpected);
}

#[test]
fn array_of_arrays_is_matrix() {
    let doc = JsonDocument::Array(vec![
        JsonElement::Array(vec![JsonScalar::Number, JsonScalar::Number]),
        JsonElement::Array(vec![JsonScalar::Number]),
        JsonElement::Array(vec![]),
    ]);
    match classify_json_vector(&doc) {
        Ok(VectorShape::Matrix(rows)) => assert_eq!(rows, vec![2, 1, 0]),
        other => panic!("expected a matrix, got {:?}", other),
    }
}

#[test]
fn matrix_row_not_array_is_refused() {
    let doc = JsonDocument::Array(vec![JsonElement::Array(vec![JsonScalar::Number]), JsonElement::Float]);
    assert_eq!(err_of(doc), JsonVectorError::ArrayOfArraysExpected);
}

#[test]
fn matrix_value_not_number_is_refused() {
    let doc = JsonDocument::Array(vec![
        JsonElement::Array(vec![JsonScalar::Number, JsonScalar::NotNumber]),
        JsonElement::Other,
    ]);
    assert_eq!(err_of(doc), JsonVectorError::FloatExpectedInRow);
}

#[test]
fn first_bad_row_decides_the_error() {
    let doc = JsonDocument::Array(vec![
        JsonElement::Array(vec![JsonScalar::Number]),
        JsonElement::Other,
        JsonElement::Array(vec![JsonScalar::NotNumber]),
    ]);
    assert_eq!(err_of(doc), JsonVectorError::ArrayOfArraysExpected);
}

#[test]
fn non_array_document_is_refused() {
    assert_eq!(err_of(JsonDocument::NotArray), JsonVectorError::NotAVectorOrMatrix);
    assert_eq!(err_of(JsonDocument::Array(vec![JsonElement::Other])), JsonVectorError::NotAVectorOrMatrix);
}

#[test]
fn error_messages() {
    assert_eq!(JsonVectorError::NotAVectorOrMatrix.message(), "JSON File is wrong. Expected an array or an array of arrays.");
    assert_eq!(JsonVectorError::FloatExpected.message(), "Expected a float value");
    assert_eq!(JsonVectorError::ArrayOfArraysExpected.message(), "Expected an array of arrays");
    assert_eq!(JsonVectorError::FloatExpectedInRow.message(), "Expected a float value inside the array");
}

#[test]
fn format_by_extension() {
    assert_eq!(dataset_format(Some("json")), DatasetFormat::Json);
    assert_eq!(dataset_format(Some("npy")), DatasetFormat::Npy);
    assert_eq!(dataset_format(Some("NPY")), DatasetFormat::Unsupported);
    assert_eq!(dataset_format(Some("csv")), DatasetFormat::Unsupported);
    assert_eq!(dataset_format(None), DatasetFormat::Unsupported);
}

#[test]
fn single_vector_selects_only_index_zero() {
    let shape = VectorShape::Single(4);
    assert_eq!(shape.vector_count(), 1);
    assert_eq!(shape.select_vector(0), Some(0));
    assert_eq!(shape.select_vector(1), None);
    assert_eq!(shape.select_vector(-1), None);
}

#[test]
fn matrix_selects_existing_rows() {
    let shape = VectorShape::Matrix(vec![3, 3, 3]);
    assert_eq!(shape.vector_count(), 3);
    assert_eq!(shape.select_vector(2), Some(2));
    assert_eq!(shape.select_vector(3), None);
    assert_eq!(shape.select_vector(-1), None);
    assert_eq!(shape.select_vector(i32::MIN), None);
    assert_eq!(VectorShape::Matrix(vec![]).select_vector(0), None);
}

fn shape_error_of(text: &str) -> JsonVectorError {
    match json_dataset_shape(text.as_bytes()) {
        Err(JsonDatasetError::Shape(e)) => e,
        other => panic!("expected a shape error, got {:?}", other),
    }
}

#[test]
fn json_text_of_floats_is_a_vector() {
    assert!(matches!(json_dataset_shape(b"[1.0, 2.5]"), Ok(VectorShape::Single(2))));
    assert!(matches!(json_dataset_shape(b"[1.5, 2, -3]"), Ok(VectorShape::Single(3))));
    assert!(matches!(json_dataset_shape(b" [1e3] "), Ok(VectorShape::Single(1))));
    assert!(matches!(json_dataset_shape(b"[]"), Ok(VectorShape::Single(0))));
}

#[test]
fn json_text_of_rows_is_a_matrix() {
    match json_dataset_shape(b"[[1.0, 2], [3], []]") {
        Ok(VectorShape::Matrix(rows)) => assert_eq!(rows, vec![2, 1, 0]),
        other => panic!("expected a matrix, got {:?}", other),
    }
}

#[test]
fn json_text_of_integers_is_refused() {
    assert_eq!(shape_error_of("[1, 2]"), JsonVectorError::NotAVectorOrMatrix);
    assert_eq!(shape_error_of("{\"a\": [1.0]}"), JsonVectorError::NotAVectorOrMatrix);
    assert_eq!(shape_error_of("[1.5, \"x\"]"), JsonVectorError::FloatExpected);
    assert_eq!(shape_error_of("[[1.0], 5]"), JsonVectorError::ArrayOfArraysExpected);
    assert_eq!(shape_error_of("[[1.0, null]]"), JsonVectorError::FloatExpectedInRow);
}

#[test]
fn json_text_that_is_not_json_is_a_parse_error() {
    let err = json_dataset_shape(b"[1.0,").unwrap_err();
    assert!(matches!(err, JsonDatasetError::Parse(_)));
    assert!(err.message().starts_with("Failed to parse JSON file: EOF while parsing"));
    assert_eq!(
        JsonDatasetError::Shape(JsonVectorError::FloatExpected).message(),
        "Expected a float value"
    );
}
