//! The notebook document model and its parser.
//!
//! A notebook is an ordered sequence of cells; a code cell carries metadata,
//! outputs, and a source value. Cells and outputs are discriminated unions
//! keyed by the `cell_type` / `output_type` field; a source value is an
//! undiscriminated union resolved by trying shapes in a fixed order: a single
//! string, then an array of strings, then anything else kept as opaque JSON.

use vstd::prelude::*;

use crate::json::{
    all_strings, json_arr_view, json_obj_view, json_view, lemma_json_arr_view,
    lemma_json_obj_view, obj_get, obj_take_four, obj_take_one, obj_take_two, opt_json_view,
    parse_json, spec_parse_json, string_items, strings_of, JsonV, JsonValue,
};

verus! {

/// The root of a notebook document: its cells, in document order.
#[derive(Debug)]
pub struct RawNotebook {
    pub cells: Vec<Cell>,
}

/// One cell of a notebook, discriminated by its `cell_type` field.
#[derive(Debug)]
pub enum Cell {
    Code(CodeCell),
    Markdown,
    Raw,
}

/// The payload of a `code` cell.
#[derive(Debug)]
pub struct CodeCell {
    pub metadata: CellMetadata,
    pub outputs: Vec<Output>,
    pub source: SourceValue,
}

/// Cell-level metadata; only the tags are retained. They are kept in
/// document order and not deduplicated.
#[derive(Debug)]
pub struct CellMetadata {
    pub tags: Option<Vec<String>>,
}

/// One output of a code cell, discriminated by its `output_type` field.
/// Only the two data-carrying variants retain a payload.
#[derive(Debug)]
pub enum Output {
    DisplayData(DisplayDataOut),
    Error,
    ExecuteResult(ExecuteResultOut),
    Stream,
}

#[derive(Debug)]
pub struct DisplayDataOut {
    pub data: MimeBundle,
}

#[derive(Debug)]
pub struct ExecuteResultOut {
    pub data: MimeBundle,
}

/// A mapping from MIME-type string to the value rendering an output in that
/// type. Keys are unique as the source JSON object's keys are; their order
/// carries no meaning.
#[derive(Debug)]
pub struct MimeBundle {
    pub entries: Vec<(String, SourceValue)>,
}

/// A string-or-array-of-strings-or-anything value, as used for cell sources
/// and MIME bundle entries. The shapes are tried in this order and the first
/// structural match is kept.
#[derive(Debug)]
pub enum SourceValue {
    Str(String),
    StrArray(Vec<String>),
    JsonData(JsonValue),
}

/// Why a parse failed: the first structural mismatch found, in document
/// order.
#[derive(Clone, Copy, Debug, PartialEq, Eq, Structural)]
pub enum ParseError {
    /// The input is not well-formed JSON.
    MalformedJson,
    /// The top level is not an object with a `cells` field.
    MissingCells,
    /// The `cells` field is not an array.
    CellsNotArray,
    /// A cell is not an object with a string `cell_type` field.
    MissingCellType,
    /// A cell's `cell_type` is none of `code`, `markdown`, `raw`.
    UnknownCellType,
    /// A code cell's `metadata` field is absent or not an object.
    MissingMetadata,
    /// A metadata `tags` field is present but not an array of strings.
    BadTags,
    /// A code cell's `outputs` field is absent or not an array.
    MissingOutputs,
    /// A code cell's `source` field is absent.
    MissingSource,
    /// An output is not an object with a string `output_type` field.
    MissingOutputType,
    /// An output's `output_type` is none of `display_data`, `error`,
    /// `execute_result`, `stream`.
    UnknownOutputType,
    /// A data-carrying output's `data` field is absent or not an object.
    MissingData,
}

// The mathematical models of the types above.

pub struct NotebookV {
    pub cells: Seq<CellV>,
}

pub enum CellV {
    Code(CodeCellV),
    Markdown,
    Raw,
}

pub struct CodeCellV {
    pub metadata: MetadataV,
    pub outputs: Seq<OutputV>,
    pub source: SourceV,
}

pub struct MetadataV {
    pub tags: Option<Seq<Seq<char>>>,
}

pub enum OutputV {
    DisplayData(BundleV),
    Error,
    ExecuteResult(BundleV),
    Stream,
}

pub struct BundleV {
    pub entries: Seq<(Seq<char>, SourceV)>,
}

pub enum SourceV {
    Str(Seq<char>),
    StrArray(Seq<Seq<char>>),
    JsonData(JsonV),
}

impl View for SourceValue {
    type V = SourceV;

    open spec fn view(&self) -> SourceV {
        match self {
            SourceValue::Str(s) => SourceV::Str(s@),
            SourceValue::StrArray(a) => SourceV::StrArray(a@.map_values(|s: String| s@)),
            SourceValue::JsonData(j) => SourceV::JsonData(j@),
        }
    }
}

impl View for MimeBundle {
    type V = BundleV;

    open spec fn view(&self) -> BundleV {
        BundleV {
            entries: self.entries@.map_values(|kv: (String, SourceValue)| (kv.0@, kv.1@)),
        }
    }
}

impl View for Output {
    type V = OutputV;

    open spec fn view(&self) -> OutputV {
        match self {
            Output::DisplayData(out) => OutputV::DisplayData(out.data@),
            Output::Error => OutputV::Error,
            Output::ExecuteResult(out) => OutputV::ExecuteResult(out.data@),
            Output::Stream => OutputV::Stream,
        }
    }
}

impl View for CellMetadata {
    type V = MetadataV;

    open spec fn view(&self) -> MetadataV {
        MetadataV {
            tags: match self.tags {
                Some(t) => Some(t@.map_values(|s: String| s@)),
                None => None,
            },
        }
    }
}

impl View for CodeCell {
    type V = CodeCellV;

    open spec fn view(&self) -> CodeCellV {
        CodeCellV {
            metadata: self.metadata@,
            outputs: self.outputs@.map_values(|o: Output| o@),
            source: self.source@,
        }
    }
}

impl View for Cell {
    type V = CellV;

    open spec fn view(&self) -> CellV {
        match self {
            Cell::Code(c) => CellV::Code(c@),
            Cell::Markdown => CellV::Markdown,
            Cell::Raw => CellV::Raw,
        }
    }
}

impl View for RawNotebook {
    type V = NotebookV;

    open spec fn view(&self) -> NotebookV {
        NotebookV { cells: self.cells@.map_values(|c: Cell| c@) }
    }
}

/// An `Ok` parse result seen through the parsed value's view.
pub open spec fn result_view<T: View>(r: Result<T, ParseError>) -> Result<T::V, ParseError> {
    match r {
        Ok(v) => Ok(v@),
        Err(e) => Err(e),
    }
}

// What parsing means, shape by shape.

/// The three-way shape trial for a source value: a single string, else an
/// array of strings, else the value kept verbatim as opaque data. The order
/// matters: the catch-all would swallow the first two shapes if tried first.
/// It never fails.
pub open spec fn spec_source_value(v: JsonV) -> SourceV {
    match v {
        JsonV::Str(s) => SourceV::Str(s),
        JsonV::Arr(items) => if all_strings(items) {
            SourceV::StrArray(string_items(items))
        } else {
            SourceV::JsonData(v)
        },
        _ => SourceV::JsonData(v),
    }
}

/// Every field of a `data` object becomes one bundle entry, in the object's
/// own order, its value put through the source-value shape trial.
pub open spec fn spec_parse_bundle(fields: Seq<(Seq<char>, JsonV)>) -> BundleV {
    BundleV { entries: fields.map_values(|kv: (Seq<char>, JsonV)| (kv.0, spec_source_value(kv.1))) }
}

pub open spec fn spec_parse_output(v: JsonV) -> Result<OutputV, ParseError> {
    match v {
        JsonV::Obj(fields) => match obj_get(fields, "output_type"@) {
            Some(JsonV::Str(t)) => if t == "display_data"@ {
                match obj_get(fields, "data"@) {
                    Some(JsonV::Obj(d)) => Ok(OutputV::DisplayData(spec_parse_bundle(d))),
                    _ => Err(ParseError::MissingData),
                }
            } else if t == "error"@ {
                Ok(OutputV::Error)
            } else if t == "execute_result"@ {
                match obj_get(fields, "data"@) {
                    Some(JsonV::Obj(d)) => Ok(OutputV::ExecuteResult(spec_parse_bundle(d))),
                    _ => Err(ParseError::MissingData),
                }
            } else if t == "stream"@ {
                Ok(OutputV::Stream)
            } else {
                Err(ParseError::UnknownOutputType)
            },
            _ => Err(ParseError::MissingOutputType),
        },
        _ => Err(ParseError::MissingOutputType),
    }
}

pub open spec fn spec_parse_outputs(arr: Seq<JsonV>) -> Result<Seq<OutputV>, ParseError>
    decreases arr.len(),
{
    if arr.len() == 0 {
        Ok(Seq::empty())
    } else {
        match spec_parse_output(arr[0]) {
            Err(e) => Err(e),
            Ok(o) => match spec_parse_outputs(arr.drop_first()) {
                Err(e) => Err(e),
                Ok(rest) => Ok(seq![o] + rest),
            },
        }
    }
}

/// Metadata keeps only the tags: absent or `null` collapses to no tags; an
/// array of strings is kept as given; any other shape is a mismatch.
pub open spec fn spec_parse_metadata(v: JsonV) -> Result<MetadataV, ParseError> {
    match v {
        JsonV::Obj(fields) => match obj_get(fields, "tags"@) {
            None => Ok(MetadataV { tags: None }),
            Some(JsonV::Null) => Ok(MetadataV { tags: None }),
            Some(JsonV::Arr(items)) => if all_strings(items) {
                Ok(MetadataV { tags: Some(string_items(items)) })
            } else {
                Err(ParseError::BadTags)
            },
            Some(_) => Err(ParseError::BadTags),
        },
        _ => Err(ParseError::MissingMetadata),
    }
}

pub open spec fn spec_parse_code_cell(fields: Seq<(Seq<char>, JsonV)>) -> Result<
    CodeCellV,
    ParseError,
> {
    match obj_get(fields, "metadata"@) {
        None => Err(ParseError::MissingMetadata),
        Some(m) => match spec_parse_metadata(m) {
            Err(e) => Err(e),
            Ok(metadata) => match obj_get(fields, "outputs"@) {
                Some(JsonV::Arr(outs)) => match spec_parse_outputs(outs) {
                    Err(e) => Err(e),
                    Ok(outputs) => match obj_get(fields, "source"@) {
                        None => Err(ParseError::MissingSource),
                        Some(src) => Ok(
                            CodeCellV { metadata, outputs, source: spec_source_value(src) },
                        ),
                    },
                },
                _ => Err(ParseError::MissingOutputs),
            },
        },
    }
}

/// The discriminator of a cell object, where it has one: the string value of
/// its `cell_type` field.
pub open spec fn spec_cell_type(v: JsonV) -> Option<Seq<char>> {
    match v {
        JsonV::Obj(fields) => match obj_get(fields, "cell_type"@) {
            Some(JsonV::Str(t)) => Some(t),
            _ => None,
        },
        _ => None,
    }
}

pub open spec fn spec_parse_cell(v: JsonV) -> Result<CellV, ParseError> {
    match v {
        JsonV::Obj(fields) => match obj_get(fields, "cell_type"@) {
            Some(JsonV::Str(t)) => if t == "code"@ {
                match spec_parse_code_cell(fields) {
                    Err(e) => Err(e),
                    Ok(c) => Ok(CellV::Code(c)),
                }
            } else if t == "markdown"@ {
                Ok(CellV::Markdown)
            } else if t == "raw"@ {
                Ok(CellV::Raw)
            } else {
                Err(ParseError::UnknownCellType)
            },
            _ => Err(ParseError::MissingCellType),
        },
        _ => Err(ParseError::MissingCellType),
    }
}

pub open spec fn spec_parse_cells(arr: Seq<JsonV>) -> Result<Seq<CellV>, ParseError>
    decreases arr.len(),
{
    if arr.len() == 0 {
        Ok(Seq::empty())
    } else {
        match spec_parse_cell(arr[0]) {
            Err(e) => Err(e),
            Ok(c) => match spec_parse_cells(arr.drop_first()) {
                Err(e) => Err(e),
                Ok(rest) => Ok(seq![c] + rest),
            },
        }
    }
}

/// What parsing a whole document means, given the JSON value it encodes.
/// Unmodeled fields never decide success: only `cells` is consulted.
pub open spec fn spec_parse_notebook(v: JsonV) -> Result<NotebookV, ParseError> {
    match v {
        JsonV::Obj(fields) => match obj_get(fields, "cells"@) {
            None => Err(ParseError::MissingCells),
            Some(JsonV::Arr(arr)) => match spec_parse_cells(arr) {
                Err(e) => Err(e),
                Ok(cells) => Ok(NotebookV { cells }),
            },
            Some(_) => Err(ParseError::CellsNotArray),
        },
        _ => Err(ParseError::MissingCells),
    }
}

/// Resolves the three-way shape trial for one source value. It cannot fail:
/// the shapes are tried in order and the catch-all accepts anything.
pub fn parse_source_value(v: JsonValue) -> (r: SourceValue)
    ensures
        r@ == spec_source_value(json_view(v)),
{
    match v {
        JsonValue::Str(s) => SourceValue::Str(s),
        JsonValue::Arr(items) => match strings_of(&items) {
            Some(sa) => SourceValue::StrArray(sa),
            None => SourceValue::JsonData(JsonValue::Arr(items)),
        },
        other => SourceValue::JsonData(other),
    }
}

/// Parses a `data` object into a MIME bundle, entry by entry, keeping the
/// object's own entry order.
pub fn parse_bundle(fields: Vec<(String, JsonValue)>) -> (r: MimeBundle)
    ensures
        r@ == spec_parse_bundle(json_obj_view(fields@)),
{
    let ghost orig = fields@;
    let ghost ov = json_obj_view(orig);
    proof {
        lemma_json_obj_view(orig);
        assert(orig.skip(0) =~= orig);
    }
    let mut fs = fields;
    let mut entries: Vec<(String, SourceValue)> = Vec::new();
    while fs.len() > 0
        invariant
            ov == json_obj_view(orig),
            ov.len() == orig.len(),
            forall|j: int| 0 <= j < orig.len() ==> ov[j] == (orig[j].0@, json_view(orig[j].1)),
            entries@.len() + fs@.len() == orig.len(),
            fs@ == orig.skip(entries@.len() as int),
            forall|j: int|
                0 <= j < entries@.len() ==> entries@[j].0@ == ov[j].0 && entries@[j].1@
                    == spec_source_value(ov[j].1),
        decreases fs.len(),
    {
        let ghost i = entries@.len() as int;
        let kv = fs.remove(0);
        proof {
            assert(kv == orig[i]);
            assert(fs@ =~= orig.skip(i + 1));
        }
        let sv = parse_source_value(kv.1);
        entries.push((kv.0, sv));
    }
    let r = MimeBundle { entries };
    proof {
        assert(r@.entries =~= spec_parse_bundle(ov).entries);
    }
    r
}

/// Parses a cell's `metadata` object, keeping only its tags.
pub fn parse_metadata(v: JsonValue) -> (r: Result<CellMetadata, ParseError>)
    ensures
        result_view(r) == spec_parse_metadata(json_view(v)),
{
    match v {
        JsonValue::Obj(fields) => {
            let tags_k: String = "tags".to_owned();
            match obj_take_one(fields, &tags_k) {
                None => Ok(CellMetadata { tags: None }),
                Some(JsonValue::Null) => Ok(CellMetadata { tags: None }),
                Some(JsonValue::Arr(items)) => match strings_of(&items) {
                    Some(sa) => Ok(CellMetadata { tags: Some(sa) }),
                    None => Err(ParseError::BadTags),
                },
                Some(_) => Err(ParseError::BadTags),
            }
        },
        _ => Err(ParseError::MissingMetadata),
    }
}

/// Parses one output object: its `output_type` field picks the variant, and
/// the two data-carrying variants require a `data` object.
pub fn parse_output(v: JsonValue) -> (r: Result<Output, ParseError>)
    ensures
        result_view(r) == spec_parse_output(json_view(v)),
{
    match v {
        JsonValue::Obj(fields) => {
            let type_k: String = "output_type".to_owned();
            let data_k: String = "data".to_owned();
            proof {
                reveal_strlit("output_type");
                reveal_strlit("data");
                assert("output_type"@.len() == 11);
                assert("data"@.len() == 4);
            }
            let (t_opt, data_opt) = obj_take_two(fields, &type_k, &data_k);
            match t_opt {
                Some(JsonValue::Str(t)) => {
                    let dd_k: String = "display_data".to_owned();
                    let err_k: String = "error".to_owned();
                    let ex_k: String = "execute_result".to_owned();
                    let st_k: String = "stream".to_owned();
                    if t == dd_k {
                        match data_opt {
                            Some(JsonValue::Obj(d)) => Ok(
                                Output::DisplayData(DisplayDataOut { data: parse_bundle(d) }),
                            ),
                            _ => Err(ParseError::MissingData),
                        }
                    } else if t == err_k {
                        Ok(Output::Error)
                    } else if t == ex_k {
                        match data_opt {
                            Some(JsonValue::Obj(d)) => Ok(
                                Output::ExecuteResult(ExecuteResultOut { data: parse_bundle(d) }),
                            ),
                            _ => Err(ParseError::MissingData),
                        }
                    } else if t == st_k {
                        Ok(Output::Stream)
                    } else {
                        Err(ParseError::UnknownOutputType)
                    }
                },
                _ => Err(ParseError::MissingOutputType),
            }
        },
        _ => Err(ParseError::MissingOutputType),
    }
}

/// Parses the `outputs` array of a code cell, in document order, stopping at
/// the first mismatch.
#[verifier::loop_isolation(false)]
pub fn parse_outputs(arr: Vec<JsonValue>) -> (r: Result<Vec<Output>, ParseError>)
    ensures
        r matches Ok(outs) ==> spec_parse_outputs(json_arr_view(arr@)) == Ok::<
            Seq<OutputV>,
            ParseError,
        >(outs@.map_values(|o: Output| o@)),
        r matches Err(e) ==> spec_parse_outputs(json_arr_view(arr@)) == Err::<
            Seq<OutputV>,
            ParseError,
        >(e),
{
    let ghost orig = arr@;
    let ghost av = json_arr_view(orig);
    proof {
        lemma_json_arr_view(orig);
        assert(orig.skip(0) =~= orig);
        assert(av.skip(0) =~= av);
    }
    let mut rest = arr;
    let mut out: Vec<Output> = Vec::new();
    while rest.len() > 0
        invariant
            av == json_arr_view(orig),
            av.len() == orig.len(),
            forall|j: int| 0 <= j < orig.len() ==> av[j] == json_view(orig[j]),
            out@.len() + rest@.len() == orig.len(),
            rest@ == orig.skip(out@.len() as int),
            spec_parse_outputs(av) == (match spec_parse_outputs(av.skip(out@.len() as int)) {
                Ok(restv) => Ok::<Seq<OutputV>, ParseError>(
                    out@.map_values(|o: Output| o@) + restv,
                ),
                Err(e) => Err::<Seq<OutputV>, ParseError>(e),
            }),
        decreases rest.len(),
    {
        let ghost i = out@.len() as int;
        let ghost oldmap = out@.map_values(|o: Output| o@);
        let v0 = rest.remove(0);
        proof {
            assert(v0 == orig[i]);
            assert(rest@ =~= orig.skip(i + 1));
            assert(av.skip(i).drop_first() =~= av.skip(i + 1));
            assert(av.skip(i)[0] == av[i]);
        }
        match parse_output(v0) {
            Ok(o) => {
                out.push(o);
                proof {
                    assert(out@.map_values(|x: Output| x@) =~= oldmap + seq![o@]);
                    match spec_parse_outputs(av.skip(i + 1)) {
                        Ok(restv) => {
                            assert(oldmap + (seq![o@] + restv) =~= out@.map_values(
                                |x: Output| x@,
                            ) + restv);
                        },
                        Err(_) => {},
                    }
                }
            },
            Err(e) => {
                proof {
                    assert(spec_parse_output(av[i]) == Err::<OutputV, ParseError>(e));
                    assert(spec_parse_outputs(av.skip(i)) == Err::<Seq<OutputV>, ParseError>(e));
                    assert(spec_parse_outputs(av) == Err::<Seq<OutputV>, ParseError>(e));
                }
                return Err(e);
            },
        }
    }
    proof {
        assert(av.skip(out@.len() as int) =~= Seq::<JsonV>::empty());
        assert(out@.map_values(|o: Output| o@) + Seq::<OutputV>::empty() =~= out@.map_values(
            |o: Output| o@,
        ));
    }
    Ok(out)
}

/// Parses one cell object: its `cell_type` field picks the variant, and a
/// `code` cell requires `metadata`, `outputs`, and `source`.
pub fn parse_cell(v: JsonValue) -> (r: Result<Cell, ParseError>)
    ensures
        result_view(r) == spec_parse_cell(json_view(v)),
{
    match v {
        JsonValue::Obj(fields) => {
            let ct_k: String = "cell_type".to_owned();
            let meta_k: String = "metadata".to_owned();
            let outs_k: String = "outputs".to_owned();
            let src_k: String = "source".to_owned();
            proof {
                reveal_strlit("cell_type");
                reveal_strlit("metadata");
                reveal_strlit("outputs");
                reveal_strlit("source");
                assert("cell_type"@.len() == 9);
                assert("metadata"@.len() == 8);
                assert("outputs"@.len() == 7);
                assert("source"@.len() == 6);
            }
            let (ct_opt, meta_opt, outs_opt, src_opt) = obj_take_four(
                fields,
                &ct_k,
                &meta_k,
                &outs_k,
                &src_k,
            );
            match ct_opt {
                Some(JsonValue::Str(t)) => {
                    let code_k: String = "code".to_owned();
                    let md_k: String = "markdown".to_owned();
                    let raw_k: String = "raw".to_owned();
                    if t == code_k {
                        match meta_opt {
                            None => Err(ParseError::MissingMetadata),
                            Some(mv) => match parse_metadata(mv) {
                                Err(e) => Err(e),
                                Ok(metadata) => match outs_opt {
                                    Some(JsonValue::Arr(outs)) => match parse_outputs(outs) {
                                        Err(e) => Err(e),
                                        Ok(outputs) => match src_opt {
                                            None => Err(ParseError::MissingSource),
                                            Some(sv) => Ok(
                                                Cell::Code(
                                                    CodeCell {
                                                        metadata,
                                                        outputs,
                                                        source: parse_source_value(sv),
                                                    },
                                                ),
                                            ),
                                        },
                                    },
                                    _ => Err(ParseError::MissingOutputs),
                                },
                            },
                        }
                    } else if t == md_k {
                        Ok(Cell::Markdown)
                    } else if t == raw_k {
                        Ok(Cell::Raw)
                    } else {
                        Err(ParseError::UnknownCellType)
                    }
                },
                _ => Err(ParseError::MissingCellType),
            }
        },
        _ => Err(ParseError::MissingCellType),
    }
}

/// Parses the `cells` array, in document order, stopping at the first
/// mismatch.
#[verifier::loop_isolation(false)]
pub fn parse_cells(arr: Vec<JsonValue>) -> (r: Result<Vec<Cell>, ParseError>)
    ensures
        r matches Ok(cells) ==> spec_parse_cells(json_arr_view(arr@)) == Ok::<
            Seq<CellV>,
            ParseError,
        >(cells@.map_values(|c: Cell| c@)),
        r matches Err(e) ==> spec_parse_cells(json_arr_view(arr@)) == Err::<
            Seq<CellV>,
            ParseError,
        >(e),
{
    let ghost orig = arr@;
    let ghost av = json_arr_view(orig);
    proof {
        lemma_json_arr_view(orig);
        assert(orig.skip(0) =~= orig);
        assert(av.skip(0) =~= av);
    }
    let mut rest = arr;
    let mut out: Vec<Cell> = Vec::new();
    while rest.len() > 0
        invariant
            av == json_arr_view(orig),
            av.len() == orig.len(),
            forall|j: int| 0 <= j < orig.len() ==> av[j] == json_view(orig[j]),
            out@.len() + rest@.len() == orig.len(),
            rest@ == orig.skip(out@.len() as int),
            spec_parse_cells(av) == (match spec_parse_cells(av.skip(out@.len() as int)) {
                Ok(restv) => Ok::<Seq<CellV>, ParseError>(
                    out@.map_values(|c: Cell| c@) + restv,
                ),
                Err(e) => Err::<Seq<CellV>, ParseError>(e),
            }),
        decreases rest.len(),
    {
        let ghost i = out@.len() as int;
        let ghost oldmap = out@.map_values(|c: Cell| c@);
        let v0 = rest.remove(0);
        proof {
            assert(v0 == orig[i]);
            assert(rest@ =~= orig.skip(i + 1));
            assert(av.skip(i).drop_first() =~= av.skip(i + 1));
            assert(av.skip(i)[0] == av[i]);
        }
        match parse_cell(v0) {
            Ok(c) => {
                out.push(c);
                proof {
                    assert(out@.map_values(|x: Cell| x@) =~= oldmap + seq![c@]);
                    match spec_parse_cells(av.skip(i + 1)) {
                        Ok(restv) => {
                            assert(oldmap + (seq![c@] + restv) =~= out@.map_values(
                                |x: Cell| x@,
                            ) + restv);
                        },
                        Err(_) => {},
                    }
                }
            },
            Err(e) => {
                proof {
                    assert(spec_parse_cell(av[i]) == Err::<CellV, ParseError>(e));
                    assert(spec_parse_cells(av.skip(i)) == Err::<Seq<CellV>, ParseError>(e));
                    assert(spec_parse_cells(av) == Err::<Seq<CellV>, ParseError>(e));
                }
                return Err(e);
            },
        }
    }
    proof {
        assert(av.skip(out@.len() as int) =~= Seq::<JsonV>::empty());
        assert(out@.map_values(|c: Cell| c@) + Seq::<CellV>::empty() =~= out@.map_values(
            |c: Cell| c@,
        ));
    }
    Ok(out)
}

/// Parses an already-decoded JSON value as a notebook document.
pub fn parse_notebook_value(v: JsonValue) -> (r: Result<RawNotebook, ParseError>)
    ensures
        result_view(r) == spec_parse_notebook(json_view(v)),
{
    match v {
        JsonValue::Obj(fields) => {
            let cells_k: String = "cells".to_owned();
            match obj_take_one(fields, &cells_k) {
                None => Err(ParseError::MissingCells),
                Some(JsonValue::Arr(arr)) => match parse_cells(arr) {
                    Err(e) => Err(e),
                    Ok(cells) => Ok(RawNotebook { cells }),
                },
                Some(_) => Err(ParseError::CellsNotArray),
            }
        },
        _ => Err(ParseError::MissingCells),
    }
}

/// Parses notebook JSON text. Fails with `MalformedJson` exactly where the
/// text is not well-formed JSON; otherwise the result is what
/// [`spec_parse_notebook`] says of the value the text encodes.
pub fn parse(text: &str) -> (r: Result<RawNotebook, ParseError>)
    ensures
        spec_parse_json(text@) is None ==> r == Err::<RawNotebook, ParseError>(
            ParseError::MalformedJson,
        ),
        spec_parse_json(text@) matches Some(jv) ==> result_view(r) == spec_parse_notebook(jv),
{
    match parse_json(text) {
        None => Err(ParseError::MalformedJson),
        Some(v) => parse_notebook_value(v),
    }
}

} // verus!
