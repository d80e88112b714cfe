//! The textual anchor extractor: pattern-based anchor extraction straight
//! from raw markdown text, line by line, without building a tree.

use vstd::prelude::*;
use vstd::string::StringExecFns;
use crate::occurrence::{AnchorMap, bump_entries, add_if_absent_entries, dedup_entries, strs_view,
    deduplicate_anchors, distinct_keys, lemma_bump_entries_distinct,
    lemma_add_if_absent_entries_distinct};
use crate::slug::{slug_of, unwrap_spec, slugify, unwrap_links};
use crate::text::{white_run, hash_run, trimmed, is_white, char_is_white, lemma_white_run_is,
    lemma_hash_run_is, until_char, find_char_from, str_to_chars, chars_to_string, trim_chars};

verus! {

/// The text split into lines at every newline character; the separator
/// belongs to no line, and a trailing newline opens one final empty line.
pub open spec fn lines_of(s: Seq<char>) -> Seq<Seq<char>>
    decreases s.len(),
{
    let i = until_char(s, '\n');
    if i >= s.len() {
        seq![s]
    } else {
        seq![s.take(i as int)] + lines_of(s.skip(i as int + 1))
    }
}

/// The heading-line pattern: optional leading whitespace, one to six `#`
/// characters, at least one whitespace character, then the heading text with
/// its surrounding whitespace dropped. A run of more than six `#` matches
/// nothing.
pub open spec fn heading_capture(line: Seq<char>) -> Option<Seq<char>> {
    let w = white_run(line);
    let h = hash_run(line.skip(w as int));
    if 1 <= h <= 6 && w + h < line.len() && is_white(line[(w + h) as int]) {
        Option::Some(trimmed(line.skip((w + h) as int)))
    } else {
        Option::None
    }
}

/// Whether the text opens with the literal `id="`.
pub open spec fn is_id_at0(s: Seq<char>) -> bool {
    s.len() >= 4 && s[0] == 'i' && s[1] == 'd' && s[2] == '=' && s[3] == '"'
}

/// Every value captured by the inline-identifier pattern: the shortest run
/// after each `id="` up to the next `"`, scanning left to right, resuming
/// after each closing quote.
pub open spec fn id_values(s: Seq<char>) -> Seq<Seq<char>>
    decreases s.len(),
{
    if s.len() < 4 {
        Seq::<Seq<char>>::empty()
    } else if is_id_at0(s) {
        let q = until_char(s.skip(4), '"');
        if 4 + q < s.len() {
            seq![s.subrange(4, 4 + q as int)] + id_values(s.skip(4 + q as int + 1))
        } else {
            Seq::<Seq<char>>::empty()
        }
    } else {
        id_values(s.drop_first())
    }
}

/// First-wins insertion of each captured identifier in order.
pub open spec fn fold_ids(m: Seq<(Seq<char>, u64)>, ids: Seq<Seq<char>>) -> Seq<(Seq<char>, u64)>
    decreases ids.len(),
{
    if ids.len() == 0 {
        m
    } else {
        fold_ids(add_if_absent_entries(m, ids[0]), ids.drop_first())
    }
}

/// The occurrence map after one line: the heading rule first — unwrap inline
/// links, slugify, raise the slug's count — then each identifier capture
/// with first-wins insertion.
pub open spec fn line_step(m: Seq<(Seq<char>, u64)>, line: Seq<char>) -> Seq<(Seq<char>, u64)> {
    let m1 = match heading_capture(line) {
        Option::Some(t) => bump_entries(m, slug_of(unwrap_spec(t))),
        Option::None => m,
    };
    fold_ids(m1, id_values(line))
}

/// The occurrence map after scanning every line in order.
pub open spec fn lines_fold(m: Seq<(Seq<char>, u64)>, lines: Seq<Seq<char>>) -> Seq<
    (Seq<char>, u64),
>
    decreases lines.len(),
{
    if lines.len() == 0 {
        m
    } else {
        lines_fold(line_step(m, lines[0]), lines.drop_first())
    }
}

proof fn lemma_fold_ids_distinct(m: Seq<(Seq<char>, u64)>, ids: Seq<Seq<char>>)
    requires
        distinct_keys(m),
    ensures
        distinct_keys(fold_ids(m, ids)),
    decreases ids.len(),
{
    if ids.len() > 0 {
        lemma_add_if_absent_entries_distinct(m, ids[0]);
        lemma_fold_ids_distinct(add_if_absent_entries(m, ids[0]), ids.drop_first());
    }
}

/// One scanned line keeps the occurrence map's keys unique.
pub proof fn lemma_line_step_distinct(m: Seq<(Seq<char>, u64)>, line: Seq<char>)
    requires
        distinct_keys(m),
    ensures
        distinct_keys(line_step(m, line)),
{
    let m1 = match heading_capture(line) {
        Option::Some(t) => bump_entries(m, slug_of(unwrap_spec(t))),
        Option::None => m,
    };
    match heading_capture(line) {
        Option::Some(t) => {
            lemma_bump_entries_distinct(m, slug_of(unwrap_spec(t)));
        },
        Option::None => {},
    }
    lemma_fold_ids_distinct(m1, id_values(line));
}

/// A whole textual scan keeps the occurrence map's keys unique: together
/// with the empty map it starts from, the map handed to the finalize step is
/// always well formed.
pub proof fn lemma_lines_fold_distinct(m: Seq<(Seq<char>, u64)>, lines: Seq<Seq<char>>)
    requires
        distinct_keys(m),
    ensures
        distinct_keys(lines_fold(m, lines)),
    decreases lines.len(),
{
    if lines.len() > 0 {
        lemma_line_step_distinct(m, lines[0]);
        lemma_lines_fold_distinct(line_step(m, lines[0]), lines.drop_first());
    }
}

/// The views of a vector of character vectors.
pub open spec fn line_views(ls: Seq<Vec<char>>) -> Seq<Seq<char>> {
    ls.map_values(|l: Vec<char>| l@)
}

fn copy_range(v: &Vec<char>, from: usize, to: usize) -> (r: Vec<char>)
    requires
        from <= to <= v@.len(),
    ensures
        r@ == v@.subrange(from as int, to as int),
{
    let mut r: Vec<char> = Vec::new();
    let mut p: usize = from;
    while p < to
        invariant
            from <= p <= to <= v@.len(),
            r@ == v@.subrange(from as int, p as int),
        decreases to - p,
    {
        r.push(v[p]);
        p += 1;
        proof {
            assert(r@ =~= v@.subrange(from as int, p as int));
        }
    }
    r
}

fn split_lines_from(v: &Vec<char>, start: usize, out: &mut Vec<Vec<char>>)
    requires
        start <= v@.len(),
    ensures
        line_views(final(out)@) == line_views(old(out)@) + lines_of(v@.skip(start as int)),
    decreases v@.len() - start,
{
    let ghost u = v@.skip(start as int);
    let n = v.len();
    let k = find_char_from(v, start, '\n');
    let line = copy_range(v, start, k);
    proof {
        assert(u.take(k - start as int) =~= v@.subrange(start as int, k as int));
    }
    if k < n {
        out.push(line);
        let ghost mid = out@;
        split_lines_from(v, k + 1, out);
        proof {
            assert(u.skip(k - start as int + 1) =~= v@.skip(k as int + 1));
            assert(line_views(mid) =~= line_views(old(out)@).push(u.take(k - start as int)));
            assert(line_views(old(out)@).push(u.take(k - start as int)) + lines_of(
                v@.skip(k as int + 1),
            ) =~= line_views(old(out)@) + (seq![u.take(k - start as int)] + lines_of(
                v@.skip(k as int + 1),
            )));
        }
    } else {
        proof {
            assert(u.take(k - start as int) =~= u);
        }
        out.push(line);
        proof {
            assert(line_views(out@) =~= line_views(old(out)@) + seq![u]);
        }
    }
}

fn split_lines(v: &Vec<char>) -> (r: Vec<Vec<char>>)
    ensures
        line_views(r@) == lines_of(v@),
{
    let mut out: Vec<Vec<char>> = Vec::new();
    proof {
        assert(v@.skip(0) =~= v@);
    }
    let ghost e = out@;
    split_lines_from(v, 0, &mut out);
    proof {
        assert(line_views(e) + lines_of(v@) =~= lines_of(v@));
    }
    out
}

fn heading_capture_exec(line: &Vec<char>) -> (r: Option<Vec<char>>)
    ensures
        match r {
            Option::Some(t) => heading_capture(line@) == Option::Some(t@),
            Option::None => heading_capture(line@) is None,
        },
{
    let n = line.len();
    let mut w: usize = 0;
    while w < n
        invariant
            n == line@.len(),
            w <= n,
            forall|j: int| 0 <= j < w ==> is_white(line@[j]),
        ensures
            w <= n,
            forall|j: int| 0 <= j < w ==> is_white(line@[j]),
            w < n ==> !is_white(line@[w as int]),
        decreases n - w,
    {
        if !char_is_white(line[w]) {
            break ;
        }
        w += 1;
    }
    proof {
        lemma_white_run_is(line@, w as int);
    }
    let mut h: usize = w;
    while h < n
        invariant
            n == line@.len(),
            w <= h <= n,
            forall|j: int| w <= j < h ==> line@[j] == '#',
        ensures
            w <= h <= n,
            forall|j: int| w <= j < h ==> line@[j] == '#',
            h < n ==> line@[h as int] != '#',
        decreases n - h,
    {
        if line[h] != '#' {
            break ;
        }
        h += 1;
    }
    proof {
        let rest = line@.skip(w as int);
        assert forall|j: int| 0 <= j < h - w implies rest[j] == '#' by {
            assert(rest[j] == line@[w + j]);
        }
        if h < n {
            assert(rest[h - w] == line@[h as int]);
        }
        lemma_hash_run_is(rest, h - w as int);
    }
    let hcount = h - w;
    if 1 <= hcount && hcount <= 6 && h < n && char_is_white(line[h]) {
        let rest = copy_range(line, h, n);
        proof {
            assert(rest@ =~= line@.skip(h as int));
        }
        let t = trim_chars(&rest);
        Some(t)
    } else {
        None
    }
}

fn ids_exec(line: &Vec<char>) -> (r: Vec<String>)
    ensures
        strs_view(r@) == id_values(line@),
{
    let n = line.len();
    let mut out: Vec<String> = Vec::new();
    proof {
        assert(line@.skip(0) =~= line@);
    }
    let mut p: usize = 0;
    while n - p >= 4
        invariant
            n == line@.len(),
            p <= n,
            id_values(line@) == strs_view(out@) + id_values(line@.skip(p as int)),
        ensures
            p <= n == line@.len(),
            id_values(line@) == strs_view(out@) + id_values(line@.skip(p as int)),
            id_values(line@.skip(p as int)) == Seq::<Seq<char>>::empty(),
        decreases n - p,
    {
        let ghost u = line@.skip(p as int);
        proof {
            assert(u[0] == line@[p as int]);
            assert(u[1] == line@[p + 1]);
            assert(u[2] == line@[p + 2]);
            assert(u[3] == line@[p + 3]);
        }
        if line[p] == 'i' && line[p + 1] == 'd' && line[p + 2] == '=' && line[p + 3] == '"' {
            let k = find_char_from(line, p + 4, '"');
            proof {
                assert(u.skip(4) =~= line@.skip(p + 4));
            }
            if k < n {
                let ghost prev = strs_view(out@);
                let cap = copy_range(line, p + 4, k);
                out.push(chars_to_string(&cap));
                proof {
                    assert(u.subrange(4, 4 + (k - p - 4)) =~= line@.subrange(p + 4, k as int));
                    assert(u.skip(4 + (k - p - 4) + 1) =~= line@.skip(k + 1));
                    assert(strs_view(out@) =~= prev.push(cap@));
                    assert(prev + (seq![cap@] + id_values(line@.skip(k + 1))) =~= strs_view(out@)
                        + id_values(line@.skip(k + 1)));
                }
                p = k + 1;
            } else {
                proof {
                    assert(until_char(u.skip(4), '"') == n - p - 4);
                    assert(id_values(u) == Seq::<Seq<char>>::empty());
                }
                return out;
            }
        } else {
            proof {
                assert(!is_id_at0(u));
                assert(u.drop_first() =~= line@.skip(p + 1));
            }
            p += 1;
        }
    }
    proof {
        assert(strs_view(out@) + Seq::<Seq<char>>::empty() =~= strs_view(out@));
    }
    out
}

/// Scan one line: apply the heading rule, then every identifier capture.
fn scan_line(line: &Vec<char>, occ: &mut AnchorMap)
    ensures
        final(occ)@ == line_step(old(occ)@, line@),
{
    match heading_capture_exec(line) {
        Option::Some(t) => {
            let ts = chars_to_string(&t);
            let unwrapped = unwrap_links(ts.as_str());
            let key = slugify(unwrapped.as_str());
            occ.bump(key);
        },
        Option::None => {},
    }
    let ghost m1 = occ@;
    let ids = ids_exec(line);
    let ghost idv = strs_view(ids@);
    proof {
        assert(idv.skip(0) =~= idv);
    }
    let mut i: usize = 0;
    while i < ids.len()
        invariant
            i <= ids@.len(),
            idv == strs_view(ids@),
            fold_ids(m1, idv) == fold_ids(occ@, idv.skip(i as int)),
        decreases ids@.len() - i,
    {
        proof {
            assert(idv.skip(i as int)[0] == idv[i as int]);
            assert(idv[i as int] == ids@[i as int]@);
            assert(idv.skip(i as int).drop_first() =~= idv.skip(i as int + 1));
        }
        let key = ids[i].clone();
        occ.add_if_absent(key);
        i += 1;
    }
    proof {
        assert(idv.skip(ids@.len() as int) =~= Seq::<Seq<char>>::empty());
    }
}

/// Extract anchors straight from raw markdown text: scan each line for the
/// heading pattern and for inline `id="..."` occurrences, then finalize the
/// occurrence map into the anchor list. Total: accepts any string and cannot
/// fail; the list's order follows first appearance, and consumers treat it
/// as a set.
pub fn extract_anchors(text: &str) -> (r: Vec<String>)
    ensures
        strs_view(r@) == dedup_entries(
            lines_fold(Seq::<(Seq<char>, u64)>::empty(), lines_of(text@)),
        ),
{
    let v = str_to_chars(text);
    let lines = split_lines(&v);
    let ghost lv = line_views(lines@);
    let mut occ = AnchorMap::new();
    proof {
        assert(lv.skip(0) =~= lv);
    }
    let mut i: usize = 0;
    while i < lines.len()
        invariant
            i <= lines@.len(),
            lv == line_views(lines@),
            lines_fold(Seq::<(Seq<char>, u64)>::empty(), lv) == lines_fold(
                occ@,
                lv.skip(i as int),
            ),
        decreases lines@.len() - i,
    {
        proof {
            assert(lv.skip(i as int)[0] == lv[i as int]);
            assert(lv[i as int] == lines@[i as int]@);
            assert(lv.skip(i as int).drop_first() =~= lv.skip(i as int + 1));
        }
        scan_line(&lines[i], &mut occ);
        i += 1;
    }
    proof {
        assert(lv.skip(lines@.len() as int) =~= Seq::<Seq<char>>::empty());
    }
    deduplicate_anchors(occ)
}

} // verus!
