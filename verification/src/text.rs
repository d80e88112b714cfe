//! Plain-text plumbing: conversions between strings and character vectors,
//! whitespace classification, trimming, and character-level string equality.

use vstd::prelude::*;
use vstd::string::StrSliceExecFns;

verus! {

/// What `char::is_whitespace` returns for `c`: whether `c` has the Unicode
/// `White_Space` property.
pub uninterp spec fn is_white(c: char) -> bool;

/// Relies on `char::is_whitespace`: true exactly for characters with the
/// Unicode `White_Space` property, a function of the character alone.
#[verifier::external_body]
pub fn char_is_white(c: char) -> (r: bool)
    ensures
        r == is_white(c),
{
    c.is_whitespace()
}

/// What `str::to_lowercase` returns, as a sequence of characters.
pub uninterp spec fn lower_of(s: Seq<char>) -> Seq<char>;

/// Relies on `str::to_lowercase`: the Unicode lowercase mapping of the text,
/// a function of the characters alone; an empty text stays empty.
#[verifier::external_body]
pub fn lower_chars(v: &Vec<char>) -> (r: Vec<char>)
    ensures
        r@ == lower_of(v@),
        v@.len() == 0 ==> r@.len() == 0,
{
    let s: String = v.iter().collect();
    s.to_lowercase().chars().collect()
}

/// Relies on `String`'s `FromIterator<char>` impl: collecting characters
/// yields a string holding exactly those characters in order.
#[verifier::external_body]
pub fn chars_to_string(v: &Vec<char>) -> (r: String)
    ensures
        r@ == v@,
{
    v.iter().collect()
}

pub fn str_to_chars(s: &str) -> (r: Vec<char>)
    ensures
        r@ == s@,
{
    let n = s.unicode_len();
    let mut v: Vec<char> = Vec::new();
    let mut i: usize = 0;
    while i < n
        invariant
            n == s@.len(),
            i <= n,
            v@ == s@.take(i as int),
        decreases n - i,
    {
        v.push(s.get_char(i));
        i += 1;
        proof {
            assert(v@ =~= s@.take(i as int));
        }
    }
    proof {
        assert(v@ =~= s@);
    }
    v
}

pub fn str_eq(a: &str, b: &str) -> (r: bool)
    ensures
        r == (a@ == b@),
{
    let na = a.unicode_len();
    let nb = b.unicode_len();
    if na != nb {
        return false;
    }
    let mut i: usize = 0;
    while i < na
        invariant
            na == a@.len(),
            na == b@.len(),
            i <= na,
            forall|j: int| 0 <= j < i ==> a@[j] == b@[j],
        decreases na - i,
    {
        if a.get_char(i) != b.get_char(i) {
            return false;
        }
        i += 1;
    }
    proof {
        assert(a@ =~= b@);
    }
    true
}

/// The text with its leading whitespace removed.
pub open spec fn trim_start_spec(s: Seq<char>) -> Seq<char>
    decreases s.len(),
{
    if s.len() > 0 && is_white(s[0]) {
        trim_start_spec(s.drop_first())
    } else {
        s
    }
}

/// The text with its trailing whitespace removed.
pub open spec fn trim_end_spec(s: Seq<char>) -> Seq<char>
    decreases s.len(),
{
    if s.len() > 0 && is_white(s.last()) {
        trim_end_spec(s.drop_last())
    } else {
        s
    }
}

/// What `str::trim` returns: the text with leading and trailing whitespace
/// removed.
pub open spec fn trimmed(s: Seq<char>) -> Seq<char> {
    trim_end_spec(trim_start_spec(s))
}

pub fn trim_chars(v: &Vec<char>) -> (r: Vec<char>)
    ensures
        r@ == trimmed(v@),
{
    let n = v.len();
    proof {
        assert(v@.skip(0) =~= v@);
    }
    let mut lo: usize = 0;
    while lo < n
        invariant
            n == v@.len(),
            lo <= n,
            trim_start_spec(v@) == trim_start_spec(v@.skip(lo as int)),
        ensures
            lo <= n == v@.len(),
            trim_start_spec(v@) == trim_start_spec(v@.skip(lo as int)),
            lo < n ==> !is_white(v@[lo as int]),
        decreases n - lo,
    {
        if !char_is_white(v[lo]) {
            break ;
        }
        proof {
            assert(v@.skip(lo as int).drop_first() =~= v@.skip(lo as int + 1));
        }
        lo += 1;
    }
    let ghost u = v@.skip(lo as int);
    proof {
        if lo < n {
            assert(u[0] == v@[lo as int]);
            assert(trim_start_spec(u) == u);
        } else {
            assert(u =~= Seq::<char>::empty());
        }
        assert(trim_start_spec(v@) == u);
        assert(u.take(n - lo as int) =~= u);
    }
    let mut hi: usize = n;
    while hi > lo
        invariant
            n == v@.len(),
            lo <= hi <= n,
            u == v@.skip(lo as int),
            trim_end_spec(u) == trim_end_spec(u.take(hi - lo as int)),
        ensures
            lo <= hi <= n == v@.len(),
            u == v@.skip(lo as int),
            trim_end_spec(u) == trim_end_spec(u.take(hi - lo as int)),
            hi > lo ==> !is_white(v@[hi - 1]),
        decreases hi,
    {
        if !char_is_white(v[hi - 1]) {
            break ;
        }
        proof {
            let k = hi - lo as int;
            assert(u.take(k).last() == v@[hi - 1]);
            assert(u.take(k).drop_last() =~= u.take(k - 1));
        }
        hi -= 1;
    }
    proof {
        if hi > lo {
            assert(u.take(hi - lo as int).last() == v@[hi - 1]);
            assert(trim_end_spec(u.take(hi - lo as int)) == u.take(hi - lo as int));
        } else {
            assert(u.take(0) =~= Seq::<char>::empty());
        }
    }
    let mut r: Vec<char> = Vec::new();
    let mut i: usize = lo;
    while i < hi
        invariant
            n == v@.len(),
            lo <= i <= hi <= n,
            u == v@.skip(lo as int),
            r@ == u.take(i - lo as int),
        decreases hi - i,
    {
        r.push(v[i]);
        i += 1;
        proof {
            assert(r@ =~= u.take(i - lo as int));
        }
    }
    proof {
        assert(r@ == u.take(hi - lo as int));
        assert(trimmed(v@) == r@);
    }
    r
}

/// The index of the first occurrence of `c` in `s`, or the length where `c`
/// does not occur.
pub open spec fn until_char(s: Seq<char>, c: char) -> nat
    decreases s.len(),
{
    if s.len() > 0 && s[0] != c {
        1 + until_char(s.drop_first(), c)
    } else {
        0
    }
}

pub proof fn lemma_until_char_is(s: Seq<char>, c: char, k: int)
    requires
        0 <= k <= s.len(),
        forall|j: int| 0 <= j < k ==> s[j] != c,
        k < s.len() ==> s[k] == c,
    ensures
        until_char(s, c) == k,
    decreases k,
{
    if k > 0 {
        assert forall|j: int| 0 <= j < k - 1 implies s.drop_first()[j] != c by {
            assert(s.drop_first()[j] == s[j + 1]);
        }
        if k - 1 < s.drop_first().len() {
            assert(s.drop_first()[k - 1] == s[k]);
        }
        lemma_until_char_is(s.drop_first(), c, k - 1);
    }
}

pub proof fn lemma_until_char_bounds(s: Seq<char>, c: char)
    ensures
        until_char(s, c) <= s.len(),
        until_char(s, c) < s.len() ==> s[until_char(s, c) as int] == c,
        forall|j: int| 0 <= j < until_char(s, c) ==> s[j] != c,
    decreases s.len(),
{
    if s.len() > 0 && s[0] != c {
        lemma_until_char_bounds(s.drop_first(), c);
        let r = until_char(s, c);
        assert forall|j: int| 0 <= j < r implies s[j] != c by {
            if j > 0 {
                assert(s.drop_first()[j - 1] == s[j]);
            }
        }
        if r < s.len() {
            assert(s.drop_first()[r - 1] == s[r as int]);
        }
    }
}

/// Find the first occurrence of `c` at or after `from`.
pub fn find_char_from(v: &Vec<char>, from: usize, c: char) -> (r: usize)
    requires
        from <= v@.len(),
    ensures
        r - from == until_char(v@.skip(from as int), c),
        from <= r <= v@.len(),
        r < v@.len() ==> v@[r as int] == c,
        forall|j: int| from <= j < r ==> v@[j] != c,
{
    let ghost u = v@.skip(from as int);
    let n = v.len();
    let mut k: usize = from;
    while k < n
        invariant
            n == v@.len(),
            from <= k <= n,
            forall|j: int| from <= j < k ==> v@[j] != c,
        ensures
            from <= k <= n,
            forall|j: int| from <= j < k ==> v@[j] != c,
            k < n ==> v@[k as int] == c,
        decreases n - k,
    {
        if v[k] == c {
            break ;
        }
        k += 1;
    }
    proof {
        assert forall|j: int| 0 <= j < k - from implies u[j] != c by {
            assert(u[j] == v@[from + j]);
        }
        if k < n {
            assert(u[k - from] == v@[k as int]);
        }
        lemma_until_char_is(u, c, k - from as int);
    }
    k
}

/// The length of the leading whitespace of `s`.
pub open spec fn white_run(s: Seq<char>) -> nat
    decreases s.len(),
{
    if s.len() > 0 && is_white(s[0]) {
        1 + white_run(s.drop_first())
    } else {
        0
    }
}

pub proof fn lemma_white_run_is(s: Seq<char>, k: int)
    requires
        0 <= k <= s.len(),
        forall|j: int| 0 <= j < k ==> is_white(s[j]),
        k < s.len() ==> !is_white(s[k]),
    ensures
        white_run(s) == k,
    decreases k,
{
    if k > 0 {
        assert forall|j: int| 0 <= j < k - 1 implies is_white(s.drop_first()[j]) by {
            assert(s.drop_first()[j] == s[j + 1]);
        }
        if k - 1 < s.drop_first().len() {
            assert(s.drop_first()[k - 1] == s[k]);
        }
        lemma_white_run_is(s.drop_first(), k - 1);
    }
}

/// The length of the run of `#` characters opening `s`.
pub open spec fn hash_run(s: Seq<char>) -> nat
    decreases s.len(),
{
    if s.len() > 0 && s[0] == '#' {
        1 + hash_run(s.drop_first())
    } else {
        0
    }
}

pub proof fn lemma_hash_run_is(s: Seq<char>, k: int)
    requires
        0 <= k <= s.len(),
        forall|j: int| 0 <= j < k ==> s[j] == '#',
        k < s.len() ==> s[k] != '#',
    ensures
        hash_run(s) == k,
    decreases k,
{
    if k > 0 {
        assert forall|j: int| 0 <= j < k - 1 implies s.drop_first()[j] == '#' by {
            assert(s.drop_first()[j] == s[j + 1]);
        }
        if k - 1 < s.drop_first().len() {
            assert(s.drop_first()[k - 1] == s[k]);
        }
        lemma_hash_run_is(s.drop_first(), k - 1);
    }
}

/// The length of the run of characters opening `s` that are neither `[` nor
/// `]`: how far a link label may reach.
pub open spec fn label_run(s: Seq<char>) -> nat
    decreases s.len(),
{
    if s.len() > 0 && s[0] != '[' && s[0] != ']' {
        1 + label_run(s.drop_first())
    } else {
        0
    }
}

pub proof fn lemma_label_run_is(s: Seq<char>, k: int)
    requires
        0 <= k <= s.len(),
        forall|j: int| 0 <= j < k ==> s[j] != '[' && s[j] != ']',
        k < s.len() ==> (s[k] == '[' || s[k] == ']'),
    ensures
        label_run(s) == k,
    decreases k,
{
    if k > 0 {
        assert forall|j: int| 0 <= j < k - 1 implies s.drop_first()[j] != '[' && s.drop_first()[j]
            != ']' by {
            assert(s.drop_first()[j] == s[j + 1]);
        }
        if k - 1 < s.drop_first().len() {
            assert(s.drop_first()[k - 1] == s[k]);
        }
        lemma_label_run_is(s.drop_first(), k - 1);
    }
}

} // verus!
