//! Laws relating the parser and the query API, stated once over the spec
//! functions and proved for all inputs.

use vstd::prelude::*;

use crate::json::{obj_get, JsonV};
use crate::query::{
    lemma_code_cells_push, lemma_output_bundles_push, spec_code_cells, spec_get_display_data,
    spec_output_bundles,
};
use crate::schema::{
    spec_cell_type, spec_parse_cell, spec_parse_cells, spec_parse_notebook, CellV, NotebookV,
    OutputV, ParseError,
};

verus! {

/// Whether a JSON value is an object whose `cell_type` field is the string
/// `code`.
pub open spec fn is_code_tagged(v: JsonV) -> bool {
    spec_cell_type(v) == Some("code"@)
}

/// How many entries of a cells array carry the `code` discriminator.
pub open spec fn count_code_tagged(arr: Seq<JsonV>) -> nat
    decreases arr.len(),
{
    if arr.len() == 0 {
        0
    } else {
        count_code_tagged(arr.drop_last()) + (if is_code_tagged(arr.last()) {
            1nat
        } else {
            0nat
        })
    }
}

/// Parsing a cells array parses each entry on its own, in order.
pub proof fn lemma_parse_cells_pointwise(arr: Seq<JsonV>, cells: Seq<CellV>)
    requires
        spec_parse_cells(arr) == Ok::<Seq<CellV>, ParseError>(cells),
    ensures
        cells.len() == arr.len(),
        forall|i: int|
            0 <= i < arr.len() ==> spec_parse_cell(arr[i]) == Ok::<CellV, ParseError>(cells[i]),
    decreases arr.len(),
{
    if arr.len() > 0 {
        let c = spec_parse_cell(arr[0])->Ok_0;
        let rest = spec_parse_cells(arr.drop_first())->Ok_0;
        assert(cells == seq![c] + rest);
        assert(cells.drop_first() =~= rest);
        lemma_parse_cells_pointwise(arr.drop_first(), cells.drop_first());
        assert forall|i: int|
            0 <= i < arr.len() implies spec_parse_cell(arr[i]) == Ok::<CellV, ParseError>(
            cells[i],
        ) by {
            if i > 0 {
                assert(spec_parse_cell(arr.drop_first()[i - 1]) == Ok::<CellV, ParseError>(
                    cells.drop_first()[i - 1],
                ));
            } else {
                assert(cells[0] == c);
            }
        }
    }
}

proof fn lemma_code_count(arr: Seq<JsonV>, cells: Seq<CellV>)
    requires
        cells.len() == arr.len(),
        forall|i: int| 0 <= i < arr.len() ==> ((cells[i] is Code) <==> is_code_tagged(arr[i])),
    ensures
        spec_code_cells(cells).len() == count_code_tagged(arr),
    decreases arr.len(),
{
    if arr.len() > 0 {
        lemma_code_count(arr.drop_last(), cells.drop_last());
        assert(cells.drop_last().push(cells.last()) =~= cells);
        lemma_code_cells_push(cells.drop_last(), cells.last());
        assert((cells.last() is Code) <==> is_code_tagged(arr.last()));
    }
}

/// The code cells of a parsed notebook are exactly the cells whose source
/// entry carries the `code` discriminator: position for position, a parsed
/// cell is a code cell exactly where its entry was `code`-tagged, and the
/// number of code cells equals the number of `code`-tagged entries. Order is
/// kept: `spec_code_cells` filters the parsed cells in place.
pub proof fn lemma_code_cells_of_parsed(arr: Seq<JsonV>, cells: Seq<CellV>)
    requires
        spec_parse_cells(arr) == Ok::<Seq<CellV>, ParseError>(cells),
    ensures
        cells.len() == arr.len(),
        forall|i: int| 0 <= i < arr.len() ==> ((cells[i] is Code) <==> is_code_tagged(arr[i])),
        spec_code_cells(cells).len() == count_code_tagged(arr),
{
    lemma_parse_cells_pointwise(arr, cells);
    assert forall|i: int|
        0 <= i < arr.len() implies ((cells[i] is Code) <==> is_code_tagged(arr[i])) by {
        assert(spec_parse_cell(arr[i]) == Ok::<CellV, ParseError>(cells[i]));
    }
    lemma_code_count(arr, cells);
}

/// For a whole parsed document: the cells of the notebook mirror the `cells`
/// array of the source JSON entry for entry — a parsed cell is a code cell
/// exactly where its entry carries the `code` discriminator — and the code
/// cells number the `code`-tagged entries.
pub proof fn lemma_code_cells_of_notebook(v: JsonV, nb: NotebookV)
    requires
        spec_parse_notebook(v) == Ok::<NotebookV, ParseError>(nb),
    ensures
        v is Obj,
        obj_get(v->Obj_0, "cells"@) matches Some(cv) && cv is Arr && {
            let arr = cv->Arr_0;
            &&& nb.cells.len() == arr.len()
            &&& (forall|i: int|
                0 <= i < arr.len() ==> ((nb.cells[i] is Code) <==> is_code_tagged(arr[i])))
            &&& spec_code_cells(nb.cells).len() == count_code_tagged(arr)
        },
{
    let arr = obj_get(v->Obj_0, "cells"@)->Some_0->Arr_0;
    lemma_code_cells_of_parsed(arr, nb.cells);
}

/// How many outputs of a sequence carry data.
pub open spec fn count_data_outputs(outs: Seq<OutputV>) -> nat
    decreases outs.len(),
{
    if outs.len() == 0 {
        0
    } else {
        count_data_outputs(outs.drop_last()) + (if spec_get_display_data(outs.last()) is Some {
            1nat
        } else {
            0nat
        })
    }
}

/// Each data-carrying output contributes exactly one MIME bundle, the
/// others none: the bundles of an output sequence number its `display_data`
/// and `execute_result` outputs.
pub proof fn lemma_one_bundle_per_data_output(outs: Seq<OutputV>)
    ensures
        spec_output_bundles(outs).len() == count_data_outputs(outs),
    decreases outs.len(),
{
    if outs.len() > 0 {
        lemma_one_bundle_per_data_output(outs.drop_last());
        assert(outs.drop_last().push(outs.last()) =~= outs);
        lemma_output_bundles_push(outs.drop_last(), outs.last());
    }
}

/// A sequence of outputs none of which carries data — all `stream`, all
/// `error`, or any mix of the two — yields no MIME bundles at all.
pub proof fn lemma_no_data_outputs_no_bundles(outs: Seq<OutputV>)
    requires
        forall|i: int| 0 <= i < outs.len() ==> spec_get_display_data(outs[i]) is None,
    ensures
        spec_output_bundles(outs).len() == 0,
    decreases outs.len(),
{
    if outs.len() > 0 {
        lemma_no_data_outputs_no_bundles(outs.drop_last());
        assert(outs.drop_last().push(outs.last()) =~= outs);
        lemma_output_bundles_push(outs.drop_last(), outs.last());
        assert(spec_get_display_data(outs.last()) is None);
    }
}

} // verus!
