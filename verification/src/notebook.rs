//! Notebook flattening: keep the markdown cells of a structured notebook
//! document and join their source fragments into one markdown text.

use vstd::prelude::*;
use vstd::string::StringExecFns;
use crate::occurrence::strs_view;
use crate::text::str_eq;

verus! {

/// One notebook cell: a type tag and its ordered source text fragments.
pub struct NotebookCell {
    pub cell_type: String,
    pub source: Vec<String>,
}

/// The mathematical content of one cell: its type tag and fragments.
pub open spec fn cell_view(c: NotebookCell) -> (Seq<char>, Seq<Seq<char>>) {
    (c.cell_type@, strs_view(c.source@))
}

/// The mathematical content of a cell list.
pub open spec fn cells_view(cs: Seq<NotebookCell>) -> Seq<(Seq<char>, Seq<Seq<char>>)> {
    cs.map_values(|c: NotebookCell| cell_view(c))
}

/// A cell's fragments concatenated with no separator between them.
pub open spec fn concat_frags(fr: Seq<Seq<char>>) -> Seq<char>
    decreases fr.len(),
{
    if fr.len() == 0 {
        Seq::<char>::empty()
    } else {
        fr[0] + concat_frags(fr.drop_first())
    }
}

/// The flattened text of each cell whose type tag is exactly `markdown`, in
/// document order; cells of any other type contribute nothing.
pub open spec fn kept_texts(cs: Seq<(Seq<char>, Seq<Seq<char>>)>) -> Seq<Seq<char>>
    decreases cs.len(),
{
    if cs.len() == 0 {
        Seq::<Seq<char>>::empty()
    } else {
        let rest = kept_texts(cs.drop_first());
        if cs[0].0 == "markdown"@ {
            seq![concat_frags(cs[0].1)] + rest
        } else {
            rest
        }
    }
}

/// What follows the first text when several are joined: one blank line before
/// each later text.
pub open spec fn tail_join(ts: Seq<Seq<char>>) -> Seq<char>
    decreases ts.len(),
{
    if ts.len() == 0 {
        Seq::<char>::empty()
    } else {
        seq!['\n', '\n'] + ts[0] + tail_join(ts.drop_first())
    }
}

/// Texts joined with one blank line between consecutive ones; no list yields
/// the empty text.
pub open spec fn join_blank(ts: Seq<Seq<char>>) -> Seq<char> {
    if ts.len() == 0 {
        Seq::<char>::empty()
    } else {
        ts[0] + tail_join(ts.drop_first())
    }
}

/// The whole flattening: keep the markdown cells, concatenate each one's
/// fragments, and join the results with one blank line.
pub open spec fn markdown_of_cells(cs: Seq<(Seq<char>, Seq<Seq<char>>)>) -> Seq<char> {
    join_blank(kept_texts(cs))
}

fn concat_cell(frags: &Vec<String>) -> (r: String)
    ensures
        r@ == concat_frags(strs_view(frags@)),
{
    let ghost fv = strs_view(frags@);
    proof {
        assert(fv.skip(0) =~= fv);
    }
    let n = frags.len();
    let mut r = String::new();
    let mut i: usize = 0;
    while i < n
        invariant
            n == frags@.len(),
            i <= n,
            fv == strs_view(frags@),
            concat_frags(fv) == r@ + concat_frags(fv.skip(i as int)),
        decreases n - i,
    {
        proof {
            assert(fv.skip(i as int)[0] == fv[i as int]);
            assert(fv.skip(i as int).drop_first() =~= fv.skip(i as int + 1));
        }
        r.append(frags[i].as_str());
        i += 1;
    }
    proof {
        assert(fv.skip(n as int) =~= Seq::<Seq<char>>::empty());
        assert(r@ + Seq::<char>::empty() =~= r@);
    }
    r
}

/// Flatten a decoded notebook: keep only cells typed `markdown`, concatenate
/// each kept cell's fragments with no separator, and join the kept cells'
/// texts with one blank line. No kept cell yields the empty text; skipped
/// cells produce no diagnostic.
pub fn extract_markdown_from_cells(cells: &Vec<NotebookCell>) -> (r: String)
    ensures
        r@ == markdown_of_cells(cells_view(cells@)),
{
    let ghost cv = cells_view(cells@);
    proof {
        assert(cv.skip(0) =~= cv);
    }
    let n = cells.len();
    let mut kept: Vec<String> = Vec::new();
    let mut i: usize = 0;
    while i < n
        invariant
            n == cells@.len(),
            i <= n,
            cv == cells_view(cells@),
            kept_texts(cv) == strs_view(kept@) + kept_texts(cv.skip(i as int)),
        decreases n - i,
    {
        let ghost prev = strs_view(kept@);
        proof {
            assert(cv.skip(i as int)[0] == cv[i as int]);
            assert(cv[i as int] == cell_view(cells@[i as int]));
            assert(cv.skip(i as int).drop_first() =~= cv.skip(i as int + 1));
        }
        if str_eq(cells[i].cell_type.as_str(), "markdown") {
            let t = concat_cell(&cells[i].source);
            kept.push(t);
            proof {
                assert(strs_view(kept@) =~= prev.push(concat_frags(cv[i as int].1)));
                assert(prev + (seq![concat_frags(cv[i as int].1)] + kept_texts(
                    cv.skip(i as int + 1),
                )) =~= strs_view(kept@) + kept_texts(cv.skip(i as int + 1)));
            }
        }
        i += 1;
    }
    proof {
        assert(cv.skip(n as int) =~= Seq::<(Seq<char>, Seq<Seq<char>>)>::empty());
        assert(strs_view(kept@) + Seq::<Seq<char>>::empty() =~= strs_view(kept@));
    }
    let ghost ks = strs_view(kept@);
    if kept.len() == 0 {
        let r = String::new();
        return r;
    }
    let m = kept.len();
    let mut out: String = kept[0].clone();
    proof {
        assert(out@ == ks[0]);
        assert(ks.drop_first().skip(0) =~= ks.drop_first());
    }
    let mut j: usize = 1;
    while j < m
        invariant
            m == kept@.len(),
            1 <= j <= m,
            ks == strs_view(kept@),
            join_blank(ks) == out@ + tail_join(ks.drop_first().skip(j - 1)),
        decreases m - j,
    {
        let ghost ts = ks.drop_first();
        proof {
            assert(ts.skip(j - 1)[0] == ts[j - 1]);
            assert(ts[j - 1] == ks[j as int]);
            assert(ts.skip(j - 1).drop_first() =~= ts.skip(j as int));
        }
        out.append("\n\n");
        proof {
            reveal_strlit("\n\n");
            assert("\n\n"@ =~= seq!['\n', '\n']);
        }
        out.append(kept[j].as_str());
        j += 1;
    }
    proof {
        assert(ks.drop_first().skip(m - 1) =~= Seq::<Seq<char>>::empty());
        assert(out@ + Seq::<char>::empty() =~= out@);
    }
    out
}

/// What decoding a notebook document returns: the cells — each a type tag
/// and its text fragments, in order — or the message of the decode failure.
/// The decode is a pure function of the text alone, so the result carries a
/// name.
pub uninterp spec fn cells_of(s: Seq<char>) -> Result<Seq<(Seq<char>, Seq<Seq<char>>)>, Seq<char>>;

/// Relies on `serde_json::from_str::<Value>` (a deterministic parse whose
/// error display is carried through), the string `Index` over `Value` (null
/// for a missing member or a non-object), `Value::as_array` and
/// `Value::as_str`: the top-level object must hold a `cells` list whose every
/// member carries a string `cell_type` and a list `source` of string
/// fragments; anything else is a decode failure.
#[verifier::external_body]
fn decode_notebook(source: &str) -> (r: Result<Vec<NotebookCell>, String>)
    ensures
        r is Ok == cells_of(source@) is Ok,
        r is Ok ==> cells_view(r->Ok_0@) == cells_of(source@)->Ok_0,
        r is Err ==> r->Err_0@ == cells_of(source@)->Err_0,
{
    let top: serde_json::Value = serde_json::from_str(source).map_err(|e| e.to_string())?;
    let cells = top["cells"].as_array().ok_or(String::from("notebook document holds no cells list"))?;
    let mut out = Vec::new();
    for c in cells {
        let tag = c["cell_type"].as_str().ok_or(String::from("notebook cell holds no text cell_type"))?;
        let frags = c["source"].as_array().ok_or(String::from("notebook cell holds no source list"))?;
        let mut src = Vec::new();
        for f in frags {
            src.push(f.as_str().ok_or(String::from("notebook cell source fragment is not text"))?.to_string());
        }
        out.push(NotebookCell { cell_type: tag.to_string(), source: src });
    }
    Ok(out)
}

/// Flatten a notebook document given as JSON text. Succeeds exactly when the
/// decode of the input does — JSON holding a cells list, each cell with a
/// string type tag and a list of string fragments; a failure carries the
/// decode error, and a success is the flattening of the input's own cells.
pub fn extract_markdown_from_notebook_source(source: String) -> (r: Result<String, String>)
    ensures
        r is Ok == cells_of(source@) is Ok,
        r is Ok ==> r->Ok_0@ == markdown_of_cells(cells_of(source@)->Ok_0),
        r is Err ==> r->Err_0@ == cells_of(source@)->Err_0,
{
    let cells = match decode_notebook(source.as_str()) {
        Ok(c) => c,
        Err(e) => {
            return Err(e);
        },
    };
    let md = extract_markdown_from_cells(&cells);
    proof {
        assert(md@ == markdown_of_cells(cells_view(cells@)));
    }
    Ok(md)
}

} // verus!
