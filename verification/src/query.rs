//! The query API over a parsed notebook: code cells, tags, output MIME
//! bundles, and the normalization of source values into text lines.

use vstd::prelude::*;
use vstd::string::StrSliceExecFns;

use crate::schema::{
    BundleV, Cell, CellV, CodeCell, CodeCellV, MimeBundle, Output, OutputV, RawNotebook, SourceV,
    SourceValue,
};

verus! {

pub open spec fn spec_get_code_cell(c: CellV) -> Option<CodeCellV> {
    match c {
        CellV::Code(cc) => Some(cc),
        _ => None,
    }
}

impl Cell {
    /// The code-cell payload, where this cell is a `code` cell; absent —
    /// never an error — for the other variants.
    pub fn get_code_cell(&self) -> (r: Option<&CodeCell>)
        ensures
            (match r {
                Some(c) => Some(c@),
                None => None,
            }) == spec_get_code_cell(self@),
    {
        match self {
            Cell::Code(cell) => Some(cell),
            _ => None,
        }
    }
}

/// The code cells of a cell sequence: exactly the subsequence of `code`
/// cells, in the original order.
pub open spec fn spec_code_cells(cells: Seq<CellV>) -> Seq<CodeCellV> {
    cells.filter(|c: CellV| c is Code).map_values(|c: CellV| c->Code_0)
}

pub proof fn lemma_code_cells_push(s: Seq<CellV>, x: CellV)
    ensures
        spec_code_cells(s.push(x)) == (if x is Code {
            spec_code_cells(s).push(x->Code_0)
        } else {
            spec_code_cells(s)
        }),
{
    reveal(Seq::filter);
    assert(s.push(x).drop_last() =~= s);
    assert(s.push(x).last() == x);
    if x is Code {
        assert(spec_code_cells(s.push(x)) =~= spec_code_cells(s).push(x->Code_0));
    } else {
        assert(spec_code_cells(s.push(x)) =~= spec_code_cells(s));
    }
}

impl RawNotebook {
    /// The notebook's code cells, in document order; cells of the other
    /// variants contribute nothing.
    #[verifier::loop_isolation(false)]
    pub fn code_cells(&self) -> (r: Vec<&CodeCell>)
        ensures
            r@.map_values(|c: &CodeCell| c@) == spec_code_cells(self@.cells),
    {
        let ghost cv = self.cells@.map_values(|c: Cell| c@);
        let mut r: Vec<&CodeCell> = Vec::new();
        let mut i: usize = 0;
        proof {
            assert(cv.take(0) =~= Seq::<CellV>::empty());
            assert(r@.map_values(|c: &CodeCell| c@) =~= spec_code_cells(cv.take(0)));
        }
        while i < self.cells.len()
            invariant
                i <= self.cells@.len(),
                r@.map_values(|c: &CodeCell| c@) == spec_code_cells(cv.take(i as int)),
            decreases self.cells@.len() - i,
        {
            let ghost oldmap = r@.map_values(|c: &CodeCell| c@);
            proof {
                assert(cv.take(i as int).push(cv[i as int]) =~= cv.take(i as int + 1));
                lemma_code_cells_push(cv.take(i as int), cv[i as int]);
            }
            match &self.cells[i] {
                Cell::Code(cell) => {
                    r.push(cell);
                    proof {
                        assert(r@.map_values(|c: &CodeCell| c@) =~= oldmap.push(cell@));
                    }
                },
                _ => {},
            }
            i += 1;
        }
        proof {
            assert(cv.take(self.cells@.len() as int) =~= cv);
        }
        r
    }
}

/// The tags of a code cell: the metadata's tags in document order, or the
/// empty sequence where the field was absent. Absent and empty collapse.
pub open spec fn spec_tags(c: CodeCellV) -> Seq<Seq<char>> {
    match c.metadata.tags {
        Some(t) => t,
        None => Seq::empty(),
    }
}

pub open spec fn spec_get_display_data(o: OutputV) -> Option<BundleV> {
    match o {
        OutputV::DisplayData(b) => Some(b),
        OutputV::ExecuteResult(b) => Some(b),
        _ => None,
    }
}

/// The MIME bundles of an output sequence: one bundle per data-carrying
/// output, in order; `error` and `stream` outputs contribute nothing.
pub open spec fn spec_output_bundles(outs: Seq<OutputV>) -> Seq<BundleV> {
    outs.filter(|o: OutputV| spec_get_display_data(o) is Some).map_values(
        |o: OutputV| spec_get_display_data(o)->Some_0,
    )
}

pub proof fn lemma_output_bundles_push(s: Seq<OutputV>, x: OutputV)
    ensures
        spec_output_bundles(s.push(x)) == (match spec_get_display_data(x) {
            Some(b) => spec_output_bundles(s).push(b),
            None => spec_output_bundles(s),
        }),
{
    reveal(Seq::filter);
    assert(s.push(x).drop_last() =~= s);
    assert(s.push(x).last() == x);
    if spec_get_display_data(x) is Some {
        assert(spec_output_bundles(s.push(x)) =~= spec_output_bundles(s).push(
            spec_get_display_data(x)->Some_0,
        ));
    } else {
        assert(spec_output_bundles(s.push(x)) =~= spec_output_bundles(s));
    }
}

impl Output {
    /// The MIME bundle of a data-carrying output; absent — never an error —
    /// for `error` and `stream` outputs.
    fn get_display_data(&self) -> (r: Option<&MimeBundle>)
        ensures
            (match r {
                Some(b) => Some(b@),
                None => None,
            }) == spec_get_display_data(self@),
    {
        match self {
            Output::DisplayData(out) => Some(&out.data),
            Output::ExecuteResult(out) => Some(&out.data),
            _ => None,
        }
    }
}

impl CodeCell {
    /// The cell's tags, in document order, duplicates kept; empty where the
    /// tags field was absent.
    #[verifier::loop_isolation(false)]
    pub fn tags(&self) -> (r: Vec<String>)
        ensures
            r@.map_values(|s: String| s@) == spec_tags(self@),
    {
        match &self.metadata.tags {
            None => {
                let r: Vec<String> = Vec::new();
                proof {
                    assert(r@.map_values(|s: String| s@) =~= spec_tags(self@));
                }
                r
            },
            Some(t) => {
                let mut r: Vec<String> = Vec::new();
                let mut i: usize = 0;
                while i < t.len()
                    invariant
                        i <= t@.len(),
                        r@.len() == i,
                        forall|j: int| 0 <= j < i ==> r@[j]@ == t@[j]@,
                    decreases t@.len() - i,
                {
                    r.push(t[i].clone());
                    i += 1;
                }
                proof {
                    assert(r@.map_values(|s: String| s@) =~= spec_tags(self@));
                }
                r
            },
        }
    }

    /// The MIME bundles attached to this cell's outputs, one per
    /// data-carrying output, in document order. The result may be shorter
    /// than the output sequence: `error` and `stream` outputs are skipped
    /// entirely.
    #[verifier::loop_isolation(false)]
    pub fn get_output_data(&self) -> (r: Vec<&MimeBundle>)
        ensures
            r@.map_values(|b: &MimeBundle| b@) == spec_output_bundles(self@.outputs),
    {
        let ghost ov = self.outputs@.map_values(|o: Output| o@);
        let mut r: Vec<&MimeBundle> = Vec::new();
        let mut i: usize = 0;
        proof {
            assert(ov.take(0) =~= Seq::<OutputV>::empty());
            assert(r@.map_values(|b: &MimeBundle| b@) =~= spec_output_bundles(ov.take(0)));
        }
        while i < self.outputs.len()
            invariant
                i <= self.outputs@.len(),
                r@.map_values(|b: &MimeBundle| b@) == spec_output_bundles(ov.take(i as int)),
            decreases self.outputs@.len() - i,
        {
            let ghost oldmap = r@.map_values(|b: &MimeBundle| b@);
            proof {
                assert(ov.take(i as int).push(ov[i as int]) =~= ov.take(i as int + 1));
                lemma_output_bundles_push(ov.take(i as int), ov[i as int]);
            }
            match self.outputs[i].get_display_data() {
                Some(b) => {
                    r.push(b);
                    proof {
                        assert(r@.map_values(|x: &MimeBundle| x@) =~= oldmap.push(b@));
                    }
                },
                None => {},
            }
            i += 1;
        }
        proof {
            assert(ov.take(self.outputs@.len() as int) =~= ov);
        }
        r
    }
}

/// The value of the first entry with the given MIME-type key, if any.
pub open spec fn spec_bundle_get(b: BundleV, key: Seq<char>) -> Option<SourceV>
    decreases b.entries.len(),
{
    if b.entries.len() == 0 {
        None
    } else if b.entries[0].0 == key {
        Some(b.entries[0].1)
    } else {
        spec_bundle_get(BundleV { entries: b.entries.drop_first() }, key)
    }
}

impl MimeBundle {
    /// Looks a value up by its MIME-type key.
    #[verifier::loop_isolation(false)]
    pub fn get(&self, key: &String) -> (r: Option<&SourceValue>)
        ensures
            (match r {
                Some(v) => Some(v@),
                None => None,
            }) == spec_bundle_get(self@, key@),
    {
        let ghost bv = self@;
        let mut i: usize = 0;
        proof {
            assert(bv.entries.skip(0) =~= bv.entries);
        }
        while i < self.entries.len()
            invariant
                i <= self.entries@.len(),
                spec_bundle_get(bv, key@) == spec_bundle_get(
                    BundleV { entries: bv.entries.skip(i as int) },
                    key@,
                ),
            decreases self.entries@.len() - i,
        {
            proof {
                assert(bv.entries.skip(i as int)[0] == bv.entries[i as int]);
                assert(bv.entries.skip(i as int).drop_first() =~= bv.entries.skip(i as int + 1));
            }
            let kv = &self.entries[i];
            if kv.0 == *key {
                return Some(&kv.1);
            }
            i += 1;
        }
        proof {
            assert(bv.entries.skip(self.entries@.len() as int) =~= Seq::<(
                Seq<char>,
                SourceV,
            )>::empty());
        }
        None
    }
}

/// Where the first newline of `s` stands, or `s.len()` where it has none.
pub open spec fn first_nl(s: Seq<char>) -> nat
    decreases s.len(),
{
    if s.len() == 0 {
        0
    } else if s[0] == '\n' {
        0
    } else {
        1 + first_nl(s.drop_first())
    }
}

pub proof fn lemma_first_nl(s: Seq<char>)
    ensures
        first_nl(s) <= s.len(),
        forall|j: int| 0 <= j < first_nl(s) ==> s[j] != '\n',
        first_nl(s) < s.len() ==> s[first_nl(s) as int] == '\n',
    decreases s.len(),
{
    if s.len() > 0 && s[0] != '\n' {
        lemma_first_nl(s.drop_first());
        assert forall|j: int| 0 <= j < first_nl(s) implies s[j] != '\n' by {
            if j > 0 {
                assert(s.drop_first()[j - 1] != '\n');
            }
        }
    }
}

pub proof fn lemma_first_nl_at(s: Seq<char>, m: int)
    requires
        0 <= m <= s.len(),
        forall|k: int| 0 <= k < m ==> s[k] != '\n',
        m < s.len() ==> s[m] == '\n',
    ensures
        first_nl(s) == m,
{
    lemma_first_nl(s);
    if first_nl(s) < m {
        assert(s[first_nl(s) as int] == '\n');
        assert(false);
    }
    if first_nl(s) > m {
        assert(m < s.len());
        assert(s[m] != '\n');
        assert(false);
    }
}

/// The line fragments of a string, split after each newline: every fragment
/// but possibly the last keeps its trailing newline and holds no other; the
/// empty string has no fragments.
pub open spec fn spec_lines(s: Seq<char>) -> Seq<Seq<char>>
    decreases s.len(),
{
    if s.len() == 0 {
        Seq::empty()
    } else {
        let i = first_nl(s) as int;
        if i < s.len() {
            seq![s.take(i + 1)] + spec_lines(s.skip(i + 1))
        } else {
            seq![s]
        }
    }
}

/// Splits a string into its line fragments, keeping each newline at the end
/// of its fragment.
#[verifier::loop_isolation(false)]
fn split_lines<'a>(s: &'a str) -> (r: Vec<&'a str>)
    ensures
        r@.map_values(|t: &str| t@) == spec_lines(s@),
{
    let n = s.unicode_len();
    let mut r: Vec<&str> = Vec::new();
    let mut start: usize = 0;
    proof {
        assert(s@.skip(0) =~= s@);
        assert(r@.map_values(|t: &str| t@) + spec_lines(s@) =~= spec_lines(s@));
    }
    while start < n
        invariant
            start <= n,
            spec_lines(s@) == r@.map_values(|t: &str| t@) + spec_lines(s@.skip(start as int)),
        decreases n - start,
    {
        let ghost tail = s@.skip(start as int);
        let ghost oldmap = r@.map_values(|t: &str| t@);
        let mut j: usize = start;
        while j < n && s.get_char(j) != '\n'
            invariant
                start <= j <= n,
                forall|k: int| start <= k < j ==> s@[k] != '\n',
            decreases n - j,
        {
            j = j + 1;
        }
        let end = if j < n {
            j + 1
        } else {
            j
        };
        proof {
            assert(forall|k: int| 0 <= k < j - start ==> tail[k] != '\n');
            if j < n {
                assert(tail[j - start] == '\n');
            }
            lemma_first_nl_at(tail, j - start);
        }
        let frag = s.substring_char(start, end);
        r.push(frag);
        proof {
            assert(tail.take(end - start as int) =~= frag@);
            assert(tail.skip(end - start as int) =~= s@.skip(end as int));
            if j < n {
                assert(spec_lines(tail) == seq![frag@] + spec_lines(s@.skip(end as int)));
            } else {
                assert(tail =~= frag@);
                assert(s@.skip(end as int) =~= Seq::<char>::empty());
                assert(spec_lines(tail) =~= seq![frag@] + spec_lines(s@.skip(end as int)));
            }
            assert(r@.map_values(|t: &str| t@) =~= oldmap.push(frag@));
            assert(oldmap + (seq![frag@] + spec_lines(s@.skip(end as int))) =~= r@.map_values(
                |t: &str| t@,
            ) + spec_lines(s@.skip(end as int)));
        }
        start = end;
    }
    proof {
        assert(s@.skip(n as int) =~= Seq::<char>::empty());
        assert(r@.map_values(|t: &str| t@) + spec_lines(s@.skip(n as int)) =~= r@.map_values(
            |t: &str| t@,
        ));
    }
    r
}

/// The normalized text lines of a source value: a single string splits into
/// line fragments, an array of strings is handed back unchanged, and opaque
/// data has no text lines.
pub open spec fn spec_to_string_array(v: SourceV) -> Option<Seq<Seq<char>>> {
    match v {
        SourceV::JsonData(_) => None,
        SourceV::StrArray(a) => Some(a),
        SourceV::Str(s) => Some(spec_lines(s)),
    }
}

impl SourceValue {
    /// The source value as text lines, where it has a textual shape; absent
    /// for the opaque shape.
    #[verifier::loop_isolation(false)]
    pub fn to_string_array(&self) -> (r: Option<Vec<&str>>)
        ensures
            (match r {
                Some(v) => Some(v@.map_values(|t: &str| t@)),
                None => None::<Seq<Seq<char>>>,
            }) == spec_to_string_array(self@),
    {
        match self {
            SourceValue::JsonData(_) => None,
            SourceValue::StrArray(sa) => {
                let mut out: Vec<&str> = Vec::new();
                let mut i: usize = 0;
                while i < sa.len()
                    invariant
                        i <= sa@.len(),
                        out@.len() == i,
                        forall|j: int| 0 <= j < i ==> out@[j]@ == sa@[j]@,
                    decreases sa@.len() - i,
                {
                    out.push(sa[i].as_str());
                    i += 1;
                }
                proof {
                    assert(out@.map_values(|t: &str| t@) =~= sa@.map_values(|t: String| t@));
                }
                Some(out)
            },
            SourceValue::Str(s) => Some(split_lines(s.as_str())),
        }
    }
}

} // verus!
