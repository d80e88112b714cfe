//! Slug generation: the text-to-slug transform shared by both anchor
//! pipelines, and the link-unwrapping helper used by the textual pipeline.

use vstd::prelude::*;
use crate::text::{is_white, lower_of, trimmed, trim_chars, lower_chars, chars_to_string,
    str_to_chars, label_run, until_char, lemma_label_run_is, find_char_from};

verus! {

/// Punctuation that every slug pipeline deletes outright.
pub open spec fn is_dropped(c: char) -> bool {
    c == '.' || c == ',' || c == ';' || c == ':' || c == '!' || c == '?' || c == '`' || c == '\\'
        || c == '(' || c == ')' || c == '"' || c == '\''
}

/// How one character of lowercased, trimmed heading text appears in the slug:
/// a space becomes a hyphen, dropped punctuation disappears, and everything
/// else passes through unchanged. The structural pipeline (`drop_braces`)
/// also deletes curly braces.
pub open spec fn slug_char(c: char, drop_braces: bool) -> Seq<char> {
    if c == ' ' {
        seq!['-']
    } else if is_dropped(c) || (drop_braces && (c == '{' || c == '}')) {
        Seq::empty()
    } else {
        seq![c]
    }
}

/// The character map of the slug transform, applied to a whole text.
pub open spec fn slug_chars(s: Seq<char>, drop_braces: bool) -> Seq<char>
    decreases s.len(),
{
    if s.len() == 0 {
        Seq::empty()
    } else {
        slug_chars(s.drop_last(), drop_braces) + slug_char(s.last(), drop_braces)
    }
}

/// The full slug transform of the textual pipeline: trim, lowercase, then
/// map each character.
pub open spec fn slug_of(s: Seq<char>) -> Seq<char> {
    slug_chars(lower_of(trimmed(s)), false)
}

/// The full slug transform of the structural pipeline, whose character-drop
/// set additionally holds the curly braces.
pub open spec fn heading_slug_of(s: Seq<char>) -> Seq<char> {
    slug_chars(lower_of(trimmed(s)), true)
}

fn is_dropped_exec(c: char) -> (r: bool)
    ensures
        r == is_dropped(c),
{
    c == '.' || c == ',' || c == ';' || c == ':' || c == '!' || c == '?' || c == '`' || c == '\\'
        || c == '(' || c == ')' || c == '"' || c == '\''
}

fn slug_transform(v: &Vec<char>, drop_braces: bool) -> (r: Vec<char>)
    ensures
        r@ == slug_chars(lower_of(trimmed(v@)), drop_braces),
{
    let t = trim_chars(v);
    let l = lower_chars(&t);
    let n = l.len();
    let mut out: Vec<char> = Vec::new();
    let mut i: usize = 0;
    while i < n
        invariant
            n == l@.len(),
            i <= n,
            out@ == slug_chars(l@.take(i as int), drop_braces),
        decreases n - i,
    {
        let ghost prev = out@;
        let c = l[i];
        if c == ' ' {
            out.push('-');
        } else if is_dropped_exec(c) || (drop_braces && (c == '{' || c == '}')) {
        } else {
            out.push(c);
        }
        i += 1;
        proof {
            let k = i as int;
            assert(l@.take(k).drop_last() =~= l@.take(k - 1));
            assert(l@.take(k).last() == l@[k - 1]);
            assert(out@ =~= prev + slug_char(l@[k - 1], drop_braces));
        }
    }
    proof {
        assert(l@.take(n as int) =~= l@);
    }
    out
}

/// The slug transform used where a raw text stands in for a document: trim,
/// lowercase, map spaces to hyphens and delete the fixed punctuation set.
/// Total: accepts any string and cannot fail.
pub fn slugify(text: &str) -> (r: String)
    ensures
        r@ == slug_of(text@),
{
    let v = str_to_chars(text);
    let out = slug_transform(&v, false);
    chars_to_string(&out)
}

/// The slug transform of the structural pipeline, which also deletes curly
/// braces. Total: accepts any string and cannot fail.
pub fn heading_to_anchor(heading: String) -> (r: String)
    ensures
        r@ == heading_slug_of(heading@),
{
    let v = str_to_chars(heading.as_str());
    let out = slug_transform(&v, true);
    chars_to_string(&out)
}

pub proof fn lemma_slug_chars_append(a: Seq<char>, b: Seq<char>, drop_braces: bool)
    ensures
        slug_chars(a + b, drop_braces) == slug_chars(a, drop_braces) + slug_chars(b, drop_braces),
    decreases b.len(),
{
    if b.len() == 0 {
        assert(a + b =~= a);
        assert(slug_chars(a, drop_braces) + slug_chars(b, drop_braces) =~= slug_chars(
            a,
            drop_braces,
        ));
    } else {
        lemma_slug_chars_append(a, b.drop_last(), drop_braces);
        assert((a + b).drop_last() =~= a + b.drop_last());
        assert((a + b).last() == b.last());
        assert(slug_chars(a, drop_braces) + slug_chars(b.drop_last(), drop_braces) + slug_char(
            b.last(),
            drop_braces,
        ) =~= slug_chars(a, drop_braces) + (slug_chars(b.drop_last(), drop_braces) + slug_char(
            b.last(),
            drop_braces,
        )));
    }
}

proof fn lemma_slug_char_fixed(c: char, drop_braces: bool)
    ensures
        slug_chars(slug_char(c, drop_braces), drop_braces) == slug_char(c, drop_braces),
{
    let m = slug_char(c, drop_braces);
    if m.len() > 0 {
        let e = Seq::<char>::empty();
        assert(m.drop_last() =~= e);
        assert(slug_chars(m, drop_braces) == slug_chars(e, drop_braces) + slug_char(
            m.last(),
            drop_braces,
        ));
        assert(slug_chars(e, drop_braces) == e);
        assert(m.last() == if c == ' ' {
            '-'
        } else {
            c
        });
        assert(e + slug_char(m.last(), drop_braces) =~= m);
    }
}

/// Re-slugifying changes nothing: the slug character map leaves no character
/// that it would transform or delete on a second pass. The trimming and
/// lowercasing steps stand outside this law, so it speaks of the character
/// map alone.
pub proof fn lemma_slug_chars_idempotent(s: Seq<char>, drop_braces: bool)
    ensures
        slug_chars(slug_chars(s, drop_braces), drop_braces) == slug_chars(s, drop_braces),
    decreases s.len(),
{
    if s.len() > 0 {
        lemma_slug_chars_idempotent(s.drop_last(), drop_braces);
        lemma_slug_chars_append(
            slug_chars(s.drop_last(), drop_braces),
            slug_char(s.last(), drop_braces),
            drop_braces,
        );
        lemma_slug_char_fixed(s.last(), drop_braces);
    }
}

/// Idempotence of the whole slug transform, on every input whose slug the
/// trimming and lowercasing steps leave unchanged — which its two premises
/// state. A slug can end in whitespace other than a space (a tab kept from
/// the input), and only there can re-slugifying trim further.
pub proof fn lemma_slugify_idempotent(s: Seq<char>, drop_braces: bool)
    requires
        trimmed(slug_chars(lower_of(trimmed(s)), drop_braces)) == slug_chars(
            lower_of(trimmed(s)),
            drop_braces,
        ),
        lower_of(slug_chars(lower_of(trimmed(s)), drop_braces)) == slug_chars(
            lower_of(trimmed(s)),
            drop_braces,
        ),
    ensures
        slug_chars(
            lower_of(trimmed(slug_chars(lower_of(trimmed(s)), drop_braces))),
            drop_braces,
        ) == slug_chars(lower_of(trimmed(s)), drop_braces),
{
    lemma_slug_chars_idempotent(lower_of(trimmed(s)), drop_braces);
}

/// Inline-link unwrapping: every substring `[label](target)` becomes just
/// `label`, scanning left to right; the label may not contain square
/// brackets, and the target ends at the first closing parenthesis. A `[`
/// that opens no complete pattern stays as it is.
pub open spec fn unwrap_spec(s: Seq<char>) -> Seq<char>
    decreases s.len(),
{
    if s.len() == 0 {
        Seq::<char>::empty()
    } else if s[0] != '[' {
        seq![s[0]] + unwrap_spec(s.drop_first())
    } else {
        let j = 1 + label_run(s.skip(1));
        if j + 1 < s.len() && s[j as int] == ']' && s[j as int + 1] == '(' {
            let t = until_char(s.skip(j as int + 2), ')');
            if j + 2 + t < s.len() {
                s.subrange(1, j as int) + unwrap_spec(s.skip(j as int + 2 + t + 1))
            } else {
                seq![s[0]] + unwrap_spec(s.drop_first())
            }
        } else {
            seq![s[0]] + unwrap_spec(s.drop_first())
        }
    }
}

fn unwrap_core(v: &Vec<char>) -> (out: Vec<char>)
    ensures
        out@ == unwrap_spec(v@),
{
    let n = v.len();
    let mut out: Vec<char> = Vec::new();
    proof {
        assert(v@.skip(0) =~= v@);
    }
    let mut i: usize = 0;
    while i < n
        invariant
            n == v@.len(),
            i <= n,
            unwrap_spec(v@) == out@ + unwrap_spec(v@.skip(i as int)),
        decreases n - i,
    {
        let ghost u = v@.skip(i as int);
        let ghost prev = out@;
        proof {
            assert(u[0] == v@[i as int]);
            assert(u.drop_first() =~= v@.skip(i as int + 1));
        }
        let c = v[i];
        if c != '[' {
            out.push(c);
            i += 1;
            proof {
                assert(prev + (seq![c] + unwrap_spec(v@.skip(i as int))) =~= out@ + unwrap_spec(
                    v@.skip(i as int),
                ));
            }
        } else {
            let mut j: usize = i + 1;
            while j < n
                invariant
                    n == v@.len(),
                    i + 1 <= j <= n,
                    forall|q: int| i + 1 <= q < j ==> v@[q] != '[' && v@[q] != ']',
                ensures
                    i + 1 <= j <= n,
                    forall|q: int| i + 1 <= q < j ==> v@[q] != '[' && v@[q] != ']',
                    j < n ==> (v@[j as int] == '[' || v@[j as int] == ']'),
                decreases n - j,
            {
                if v[j] == '[' || v[j] == ']' {
                    break ;
                }
                j += 1;
            }
            proof {
                let w = u.skip(1);
                assert(w =~= v@.skip(i as int + 1));
                assert forall|q: int| 0 <= q < j - i - 1 implies w[q] != '[' && w[q] != ']' by {
                    assert(w[q] == v@[i + 1 + q]);
                }
                if j < n {
                    assert(w[j - i - 1] == v@[j as int]);
                }
                lemma_label_run_is(w, j - i - 1);
                assert(1 + label_run(u.skip(1)) == j - i);
            }
            if j < n && v[j] == ']' && n - j > 1 && v[j + 1] == '(' {
                let k = find_char_from(v, j + 2, ')');
                proof {
                    assert(u.skip(j - i as int + 2) =~= v@.skip(j as int + 2));
                    assert(until_char(u.skip(j - i as int + 2), ')') == k - j - 2);
                }
                if k < n {
                    let mut p: usize = i + 1;
                    while p < j
                        invariant
                            n == v@.len(),
                            i + 1 <= p <= j <= n,
                            out@ == prev + v@.subrange(i as int + 1, p as int),
                        decreases j - p,
                    {
                        out.push(v[p]);
                        p += 1;
                        proof {
                            assert(out@ =~= prev + v@.subrange(i as int + 1, p as int));
                        }
                    }
                    proof {
                        assert(u.subrange(1, j - i as int) =~= v@.subrange(
                            i as int + 1,
                            j as int,
                        ));
                        assert(u.skip(j - i as int + 2 + (k - j - 2) + 1) =~= v@.skip(k + 1));
                        assert(unwrap_spec(u) == u.subrange(1, j - i as int) + unwrap_spec(
                            v@.skip(k + 1),
                        ));
                        assert(prev + (v@.subrange(i as int + 1, j as int) + unwrap_spec(
                            v@.skip(k + 1),
                        )) =~= out@ + unwrap_spec(v@.skip(k + 1)));
                    }
                    i = k + 1;
                } else {
                    out.push(c);
                    i += 1;
                    proof {
                        assert(prev + (seq![c] + unwrap_spec(v@.skip(i as int))) =~= out@
                            + unwrap_spec(v@.skip(i as int)));
                    }
                }
            } else {
                out.push(c);
                i += 1;
                proof {
                    assert(prev + (seq![c] + unwrap_spec(v@.skip(i as int))) =~= out@
                        + unwrap_spec(v@.skip(i as int)));
                }
            }
        }
    }
    proof {
        assert(v@.skip(n as int) =~= Seq::<char>::empty());
        assert(out@ + Seq::<char>::empty() =~= out@);
    }
    out
}

/// Replace every inline markdown link `[label](target)` in the text with its
/// label, approximating the visible text of a heading before slugifying it.
pub fn unwrap_links(text: &str) -> (r: String)
    ensures
        r@ == unwrap_spec(text@),
{
    let v = str_to_chars(text);
    let out = unwrap_core(&v);
    chars_to_string(&out)
}

} // verus!
