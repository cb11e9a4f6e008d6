use nbmodel::json::JsonValue;
use nbmodel::schema::{parse, Cell, ParseError, SourceValue};

fn parse_err(text: &str) -> ParseError {
    parse(text).unwrap_err()
}

// Parsing whole documents.

#[test]
fn empty_notebook_parses() {
    let nb = parse(r#"{"cells": []}"#).unwrap();
    assert_eq!(nb.cells.len(), 0);
    assert_eq!(nb.code_cells().len(), 0);
}

#[test]
fn unmodeled_fields_are_ignored() {
    let text = r#"{
        "nbformat": 4,
        "nbformat_minor": 5,
        "metadata": {"kernelspec": {"name": "python3"}},
        "cells": [
            {"cell_type": "markdown", "id": "abc", "source": "hi", "attachments": {}},
            {"cell_type": "raw", "source": ["x"]},
            {"cell_type": "code", "id": "def", "execution_count": 3,
             "metadata": {"collapsed": false},
             "outputs": [], "source": "1 + 1"}
        ]
    }"#;
    let nb = parse(text).unwrap();
    assert_eq!(nb.cells.len(), 3);
    assert_eq!(nb.code_cells().len(), 1);
}

#[test]
fn malformed_json_fails() {
    assert_eq!(parse_err("{"), ParseError::MalformedJson);
    assert_eq!(parse_err(""), ParseError::MalformedJson);
    assert_eq!(parse_err(r#"{"cells": [}]"#), ParseError::MalformedJson);
}

#[test]
fn missing_cells_fails() {
    assert_eq!(parse_err("{}"), ParseError::MissingCells);
    assert_eq!(parse_err("5"), ParseError::MissingCells);
    assert_eq!(parse_err(r#"{"nbformat": 4}"#), ParseError::MissingCells);
}

#[test]
fn cells_not_array_fails() {
    assert_eq!(parse_err(r#"{"cells": 5}"#), ParseError::CellsNotArray);
    assert_eq!(parse_err(r#"{"cells": {"a": 1}}"#), ParseError::CellsNotArray);
}

#[test]
fn cell_without_discriminator_fails() {
    assert_eq!(parse_err(r#"{"cells": [{}]}"#), ParseError::MissingCellType);
    assert_eq!(parse_err(r#"{"cells": [5]}"#), ParseError::MissingCellType);
    assert_eq!(
        parse_err(r#"{"cells": [{"cell_type": 7}]}"#),
        ParseError::MissingCellType
    );
}

#[test]
fn unknown_cell_type_fails_whole_parse() {
    // One bad cell invalidates the notebook, even beside good cells.
    let text = r#"{"cells": [
        {"cell_type": "markdown"},
        {"cell_type": "unknown"}
    ]}"#;
    assert_eq!(parse_err(text), ParseError::UnknownCellType);
}

#[test]
fn markdown_cell_parses_and_is_not_a_code_cell() {
    let nb = parse(r#"{"cells": [{"cell_type": "markdown"}]}"#).unwrap();
    assert_eq!(nb.cells.len(), 1);
    assert_eq!(nb.code_cells().len(), 0);
    assert!(nb.cells[0].get_code_cell().is_none());
}

#[test]
fn code_cell_requires_metadata_outputs_source() {
    assert_eq!(
        parse_err(r#"{"cells": [{"cell_type": "code", "outputs": [], "source": ""}]}"#),
        ParseError::MissingMetadata
    );
    assert_eq!(
        parse_err(r#"{"cells": [{"cell_type": "code", "metadata": 7, "outputs": [], "source": ""}]}"#),
        ParseError::MissingMetadata
    );
    assert_eq!(
        parse_err(r#"{"cells": [{"cell_type": "code", "metadata": {}, "source": ""}]}"#),
        ParseError::MissingOutputs
    );
    assert_eq!(
        parse_err(r#"{"cells": [{"cell_type": "code", "metadata": {}, "outputs": {}, "source": ""}]}"#),
        ParseError::MissingOutputs
    );
    assert_eq!(
        parse_err(r#"{"cells": [{"cell_type": "code", "metadata": {}, "outputs": []}]}"#),
        ParseError::MissingSource
    );
}

#[test]
fn bad_tags_fail() {
    assert_eq!(
        parse_err(
            r#"{"cells": [{"cell_type": "code", "metadata": {"tags": 5}, "outputs": [], "source": ""}]}"#
        ),
        ParseError::BadTags
    );
    assert_eq!(
        parse_err(
            r#"{"cells": [{"cell_type": "code", "metadata": {"tags": ["a", 5]}, "outputs": [], "source": ""}]}"#
        ),
        ParseError::BadTags
    );
}

#[test]
fn output_discriminator_errors() {
    let prefix = r#"{"cells": [{"cell_type": "code", "metadata": {}, "source": "", "outputs": ["#;
    let suffix = r#"]}]}"#;
    let with_output = |out: &str| format!("{}{}{}", prefix, out, suffix);
    assert_eq!(
        parse(&with_output(r#"{}"#)).unwrap_err(),
        ParseError::MissingOutputType
    );
    assert_eq!(
        parse(&with_output(r#"5"#)).unwrap_err(),
        ParseError::MissingOutputType
    );
    assert_eq!(
        parse(&with_output(r#"{"output_type": "shiny"}"#)).unwrap_err(),
        ParseError::UnknownOutputType
    );
    assert_eq!(
        parse(&with_output(r#"{"output_type": "display_data"}"#)).unwrap_err(),
        ParseError::MissingData
    );
    assert_eq!(
        parse(&with_output(r#"{"output_type": "execute_result", "data": 5}"#)).unwrap_err(),
        ParseError::MissingData
    );
    // error and stream outputs need no data.
    let nb = parse(&with_output(
        r#"{"output_type": "error", "ename": "E", "evalue": "v", "traceback": []}"#,
    ))
    .unwrap();
    assert_eq!(nb.code_cells()[0].get_output_data().len(), 0);
}

// Tags.

#[test]
fn absent_tags_collapse_to_empty() {
    let nb = parse(
        r#"{"cells": [{"cell_type": "code", "metadata": {}, "outputs": [], "source": ""}]}"#,
    )
    .unwrap();
    assert_eq!(nb.code_cells()[0].tags(), Vec::<String>::new());
    let nb = parse(
        r#"{"cells": [{"cell_type": "code", "metadata": {"tags": null}, "outputs": [], "source": ""}]}"#,
    )
    .unwrap();
    assert_eq!(nb.code_cells()[0].tags(), Vec::<String>::new());
}

#[test]
fn tags_keep_order_and_duplicates() {
    let nb = parse(
        r#"{"cells": [{"cell_type": "code",
            "metadata": {"tags": ["b", "a", "b"]},
            "outputs": [], "source": ""}]}"#,
    )
    .unwrap();
    assert_eq!(
        nb.code_cells()[0].tags(),
        vec!["b".to_string(), "a".to_string(), "b".to_string()]
    );
}

// Output MIME bundles.

#[test]
fn stream_only_outputs_yield_no_bundles() {
    let nb = parse(
        r#"{"cells": [{"cell_type": "code", "metadata": {}, "source": "", "outputs": [
            {"output_type": "stream", "name": "stdout", "text": ["hi\n"]},
            {"output_type": "stream", "name": "stderr", "text": ["oh\n"]}
        ]}]}"#,
    )
    .unwrap();
    let cells = nb.code_cells();
    let cell = cells[0];
    assert_eq!(cell.outputs.len(), 2);
    assert_eq!(cell.get_output_data().len(), 0);
}

#[test]
fn one_bundle_per_data_output_in_order() {
    let nb = parse(
        r#"{"cells": [{"cell_type": "code", "metadata": {}, "source": "", "outputs": [
            {"output_type": "stream", "name": "stdout", "text": "a"},
            {"output_type": "display_data", "data": {"text/plain": "first"}},
            {"output_type": "error", "ename": "E", "evalue": "v", "traceback": []},
            {"output_type": "execute_result", "data": {"text/plain": "second"}}
        ]}]}"#,
    )
    .unwrap();
    let cells = nb.code_cells();
    let bundles = cells[0].get_output_data();
    assert_eq!(bundles.len(), 2);
    let key = "text/plain".to_string();
    match bundles[0].get(&key) {
        Some(SourceValue::Str(s)) => assert_eq!(s, "first"),
        other => panic!("unexpected first bundle entry: {:?}", other),
    }
    match bundles[1].get(&key) {
        Some(SourceValue::Str(s)) => assert_eq!(s, "second"),
        other => panic!("unexpected second bundle entry: {:?}", other),
    }
}

#[test]
fn bundle_lookup_by_mime_key() {
    let nb = parse(
        r#"{"cells": [{"cell_type": "code", "metadata": {}, "source": "", "outputs": [
            {"output_type": "display_data",
             "data": {"image/png": "iVBORw0KG...", "text/plain": ["<figure>"]}}
        ]}]}"#,
    )
    .unwrap();
    let cells = nb.code_cells();
    let bundles = cells[0].get_output_data();
    assert_eq!(bundles.len(), 1);
    let bundle = bundles[0];
    match bundle.get(&"image/png".to_string()) {
        Some(SourceValue::Str(s)) => assert_eq!(s, "iVBORw0KG..."),
        other => panic!("unexpected image/png entry: {:?}", other),
    }
    match bundle.get(&"text/plain".to_string()) {
        Some(SourceValue::StrArray(a)) => assert_eq!(a, &vec!["<figure>".to_string()]),
        other => panic!("unexpected text/plain entry: {:?}", other),
    }
    assert!(bundle.get(&"text/html".to_string()).is_none());
}

// Source values and text lines.

#[test]
fn single_string_splits_into_inclusive_lines() {
    let v = SourceValue::Str("a\nb\nc".to_string());
    assert_eq!(v.to_string_array(), Some(vec!["a\n", "b\n", "c"]));
}

#[test]
fn string_array_is_returned_unchanged() {
    let v = SourceValue::StrArray(vec![
        "a\n".to_string(),
        "b\n".to_string(),
        "c".to_string(),
    ]);
    assert_eq!(v.to_string_array(), Some(vec!["a\n", "b\n", "c"]));
}

#[test]
fn opaque_json_has_no_text_lines() {
    let v = SourceValue::JsonData(JsonValue::Obj(vec![(
        "state".to_string(),
        JsonValue::Obj(vec![("value".to_string(), JsonValue::Other)]),
    )]));
    assert_eq!(v.to_string_array(), None);
}

#[test]
fn line_split_edge_cases() {
    assert_eq!(
        SourceValue::Str(String::new()).to_string_array(),
        Some(Vec::<&str>::new())
    );
    assert_eq!(
        SourceValue::Str("\n".to_string()).to_string_array(),
        Some(vec!["\n"])
    );
    assert_eq!(
        SourceValue::Str("a\n".to_string()).to_string_array(),
        Some(vec!["a\n"])
    );
    assert_eq!(
        SourceValue::Str("abc".to_string()).to_string_array(),
        Some(vec!["abc"])
    );
    assert_eq!(
        SourceValue::Str("a\n\nb".to_string()).to_string_array(),
        Some(vec!["a\n", "\n", "b"])
    );
}

#[test]
fn source_shapes_parse_through_the_trial_order() {
    let nb = parse(
        r#"{"cells": [
            {"cell_type": "code", "metadata": {}, "outputs": [], "source": "x = 1\ny = 2"},
            {"cell_type": "code", "metadata": {}, "outputs": [], "source": ["x = 1\n", "y = 2"]},
            {"cell_type": "code", "metadata": {}, "outputs": [], "source": {"odd": true}},
            {"cell_type": "code", "metadata": {}, "outputs": [], "source": ["x", 5]}
        ]}"#,
    )
    .unwrap();
    let cells = nb.code_cells();
    assert_eq!(
        cells[0].source.to_string_array(),
        Some(vec!["x = 1\n", "y = 2"])
    );
    assert_eq!(
        cells[1].source.to_string_array(),
        Some(vec!["x = 1\n", "y = 2"])
    );
    assert_eq!(cells[2].source.to_string_array(), None);
    // An array with a non-string member is not an array of strings: it falls
    // through to the opaque shape.
    assert_eq!(cells[3].source.to_string_array(), None);
}

// End to end.

#[test]
fn end_to_end_extraction() {
    let text = r#"{"cells": [
        {"cell_type": "markdown", "source": "title"},
        {"cell_type": "code",
         "metadata": {"tags": ["fig1"]},
         "outputs": [
            {"output_type": "execute_result",
             "data": {"image/png": "iVBORw0KG..."}}
         ],
         "source": "plot()"},
        {"cell_type": "raw"}
    ]}"#;
    let nb = parse(text).unwrap();
    assert_eq!(nb.cells.len(), 3);
    let cells = nb.code_cells();
    assert_eq!(cells.len(), 1);
    assert_eq!(cells[0].tags(), vec!["fig1".to_string()]);
    let bundles = cells[0].get_output_data();
    assert_eq!(bundles.len(), 1);
    assert!(bundles[0].get(&"image/png".to_string()).is_some());
}

#[test]
fn get_code_cell_is_absent_for_other_variants() {
    let nb = parse(
        r#"{"cells": [
            {"cell_type": "raw"},
            {"cell_type": "code", "metadata": {}, "outputs": [], "source": ""}
        ]}"#,
    )
    .unwrap();
    assert!(nb.cells[0].get_code_cell().is_none());
    assert!(nb.cells[1].get_code_cell().is_some());
    assert!(matches!(nb.cells[0], Cell::Raw));
}
