//! Document-level operations: the combined link-and-anchor pipeline over a
//! parsed tree, and the plain-value core of the file-based entry points.

use vstd::prelude::*;
use vstd::string::StringExecFns;
use vstd::string::StrSliceExecFns;
use crate::ast::AstNode;
use crate::anchors::anchor_fold;
use crate::links::{links_of, insert_links, distinct_strs, lemma_insert_links_distinct};
use crate::mdx::{parse_mdx, walk_ast, Collector, tree_of};
use crate::notebook::{extract_markdown_from_notebook_source, cells_of, markdown_of_cells};
use crate::occurrence::{deduplicate_anchors, dedup_entries, strs_view};

verus! {

/// Whether a path names a notebook document: it ends in `.ipynb`.
pub open spec fn is_notebook_path_spec(p: Seq<char>) -> bool {
    p.len() >= 6 && p.subrange(p.len() - 6, p.len() as int) == ".ipynb"@
}

pub fn is_notebook_path(path: &str) -> (r: bool)
    ensures
        r == is_notebook_path_spec(path@),
{
    let n = path.unicode_len();
    if n < 6 {
        return false;
    }
    let r = path.get_char(n - 6) == '.' && path.get_char(n - 5) == 'i' && path.get_char(n - 4)
        == 'p' && path.get_char(n - 3) == 'y' && path.get_char(n - 2) == 'n' && path.get_char(
        n - 1,
    ) == 'b';
    proof {
        reveal_strlit(".ipynb");
        let sub = path@.subrange(n - 6, n as int);
        assert(sub.len() == 6);
        assert(sub[0] == path@[n - 6] && sub[1] == path@[n - 5] && sub[2] == path@[n - 4] && sub[3]
            == path@[n - 3] && sub[4] == path@[n - 2] && sub[5] == path@[n - 1]);
        assert(".ipynb"@.len() == 6);
        assert(".ipynb"@[0] == '.' && ".ipynb"@[1] == 'i' && ".ipynb"@[2] == 'p' && ".ipynb"@[3]
            == 'y' && ".ipynb"@[4] == 'n' && ".ipynb"@[5] == 'b');
        if r {
            assert(sub =~= ".ipynb"@);
        }
    }
    r
}

/// The error wrapping of the file-based entry points: the originating path
/// prepended to the underlying reason, in the fixed literal form.
pub fn build_read_error(path: &str, reason: &str) -> (r: String)
    ensures
        r@ == "Could not read \""@ + path@ + "\": "@ + reason@,
{
    let mut s = String::from_str("Could not read \"");
    s.append(path);
    s.append("\": ");
    s.append(reason);
    s
}

/// Links and structural anchors of a parsed tree, both collected in one
/// walk: the duplicate-free target list in document order, and the finalized
/// anchor list of the occurrence map.
pub fn extract_from_tree(root: &AstNode) -> (r: (Vec<String>, Vec<String>))
    ensures
        strs_view(r.0@) == insert_links(Seq::<Seq<char>>::empty(), links_of(*root)),
        distinct_strs(strs_view(r.0@)),
        strs_view(r.1@) == dedup_entries(anchor_fold(Seq::<(Seq<char>, u64)>::empty(), *root)),
{
    let mut state = Collector::new();
    let ghost l0 = state.links@;
    walk_ast(root, &mut state);
    proof {
        assert(strs_view(l0) =~= Seq::<Seq<char>>::empty());
        lemma_insert_links_distinct(Seq::<Seq<char>>::empty(), links_of(*root));
    }
    let anchors = deduplicate_anchors(state.anchors);
    (state.links, anchors)
}

/// The markdown text a document source yields before parsing: a source whose
/// path names a notebook is flattened first (its decode may fail), any other
/// source is taken as it is.
pub open spec fn source_markdown(path: Seq<char>, text: Seq<char>) -> Result<Seq<char>, Seq<char>> {
    if is_notebook_path_spec(path) {
        match cells_of(text) {
            Result::Ok(cs) => Result::Ok(markdown_of_cells(cs)),
            Result::Err(e) => Result::Err(e),
        }
    } else {
        Result::Ok(text)
    }
}

/// The document pipeline behind the file-based entry points, on plain
/// values: where the path names a notebook the text is first flattened (a
/// decode failure is wrapped with the path); the markdown is then parsed (a
/// parse failure carries the parser's diagnostic unmodified), and links and
/// structural anchors of the input's own tree are collected in one walk.
pub fn extract_from_source(path: &str, text: String) -> (r: Result<
    (Vec<String>, Vec<String>),
    String,
>)
    ensures
        match source_markdown(path@, text@) {
            Result::Ok(md) => {
                &&& r is Ok == tree_of(md) is Ok
                &&& (r is Err ==> r->Err_0 == tree_of(md)->Err_0)
                &&& (r is Ok ==> strs_view(r->Ok_0.0@) == insert_links(
                    Seq::<Seq<char>>::empty(),
                    links_of(tree_of(md)->Ok_0),
                ) && distinct_strs(strs_view(r->Ok_0.0@)) && strs_view(r->Ok_0.1@)
                    == dedup_entries(
                    anchor_fold(Seq::<(Seq<char>, u64)>::empty(), tree_of(md)->Ok_0),
                ))
            },
            Result::Err(e) => r is Err && r->Err_0@ == "Could not read \""@ + path@ + "\": "@
                + e,
        },
{
    let ghost text0 = text@;
    let md = if is_notebook_path(path) {
        match extract_markdown_from_notebook_source(text) {
            Ok(m) => m,
            Err(e) => {
                return Err(build_read_error(path, e.as_str()));
            },
        }
    } else {
        text
    };
    proof {
        assert(source_markdown(path@, text0) == Result::<Seq<char>, Seq<char>>::Ok(md@));
    }
    let tree = match parse_mdx(md) {
        Ok(t) => t,
        Err(e) => {
            return Err(e);
        },
    };
    let pair = extract_from_tree(&tree);
    Ok(pair)
}

/// The same path, notebook and parse handling, extracting the link targets
/// of the input's own tree only.
pub fn extract_links_from_source(path: &str, text: String) -> (r: Result<Vec<String>, String>)
    ensures
        match source_markdown(path@, text@) {
            Result::Ok(md) => {
                &&& r is Ok == tree_of(md) is Ok
                &&& (r is Err ==> r->Err_0 == tree_of(md)->Err_0)
                &&& (r is Ok ==> strs_view(r->Ok_0@) == insert_links(
                    Seq::<Seq<char>>::empty(),
                    links_of(tree_of(md)->Ok_0),
                ) && distinct_strs(strs_view(r->Ok_0@)))
            },
            Result::Err(e) => r is Err && r->Err_0@ == "Could not read \""@ + path@ + "\": "@
                + e,
        },
{
    match extract_from_source(path, text) {
        Ok(p) => Ok(p.0),
        Err(e) => Err(e),
    }
}

} // verus!
