//! The anchor occurrence map: an insertion-ordered association from slug to
//! occurrence count, and the finalize step that numbers duplicate anchors.

use vstd::prelude::*;
use crate::text::chars_to_string;
use crate::text::str_to_chars;

verus! {

/// Occurrence counts grow by one per duplicate heading and stop at the
/// machine bound rather than wrap.
pub open spec fn bump_count(c: u64) -> u64 {
    if c == u64::MAX {
        c
    } else {
        (c + 1) as u64
    }
}

/// The mathematical content of an occurrence map: the key and count of each
/// entry, in insertion order.
pub open spec fn entry_views(v: Seq<(String, u64)>) -> Seq<(Seq<char>, u64)> {
    v.map_values(|p: (String, u64)| (p.0@, p.1))
}

/// The heading rule: a fresh key enters with count one; a present key has its
/// count raised by one, in place.
pub open spec fn bump_entries(m: Seq<(Seq<char>, u64)>, k: Seq<char>) -> Seq<(Seq<char>, u64)>
    decreases m.len(),
{
    if m.len() == 0 {
        seq![(k, 1u64)]
    } else if m[0].0 == k {
        seq![(m[0].0, bump_count(m[0].1))] + m.drop_first()
    } else {
        seq![m[0]] + bump_entries(m.drop_first(), k)
    }
}

/// The structural identifier rule: the key's count becomes one, whatever it
/// was; a fresh key enters with count one.
pub open spec fn set_one_entries(m: Seq<(Seq<char>, u64)>, k: Seq<char>) -> Seq<(Seq<char>, u64)>
    decreases m.len(),
{
    if m.len() == 0 {
        seq![(k, 1u64)]
    } else if m[0].0 == k {
        seq![(m[0].0, 1u64)] + m.drop_first()
    } else {
        seq![m[0]] + set_one_entries(m.drop_first(), k)
    }
}

/// The textual identifier rule: the first occurrence of a key wins and later
/// ones change nothing.
pub open spec fn add_if_absent_entries(m: Seq<(Seq<char>, u64)>, k: Seq<char>) -> Seq<
    (Seq<char>, u64),
>
    decreases m.len(),
{
    if m.len() == 0 {
        seq![(k, 1u64)]
    } else if m[0].0 == k {
        m
    } else {
        seq![m[0]] + add_if_absent_entries(m.drop_first(), k)
    }
}

/// An occurrence map, keyed by slug, in insertion order. Keys stay unique:
/// it starts empty, and each operation preserves `distinct_keys` (see the
/// lemmas beside the entry rules).
pub struct AnchorMap {
    pub entries: Vec<(String, u64)>,
}

impl View for AnchorMap {
    type V = Seq<(Seq<char>, u64)>;

    open spec fn view(&self) -> Seq<(Seq<char>, u64)> {
        entry_views(self.entries@)
    }
}

proof fn lemma_bump_split(m: Seq<(Seq<char>, u64)>, k: Seq<char>, i: int)
    requires
        0 <= i <= m.len(),
        forall|j: int| 0 <= j < i ==> m[j].0 != k,
    ensures
        bump_entries(m, k) == m.take(i) + bump_entries(m.skip(i), k),
    decreases i,
{
    if i == 0 {
        assert(m.skip(0) =~= m);
        assert(m.take(0) + bump_entries(m, k) =~= bump_entries(m, k));
    } else {
        lemma_bump_split(m, k, i - 1);
        assert(m.skip(i - 1)[0] == m[i - 1]);
        assert(m.skip(i - 1).drop_first() =~= m.skip(i));
        assert(bump_entries(m.skip(i - 1), k) == seq![m[i - 1]] + bump_entries(m.skip(i), k));
        assert(m.take(i - 1) + (seq![m[i - 1]] + bump_entries(m.skip(i), k)) =~= m.take(i)
            + bump_entries(m.skip(i), k));
    }
}

proof fn lemma_set_one_split(m: Seq<(Seq<char>, u64)>, k: Seq<char>, i: int)
    requires
        0 <= i <= m.len(),
        forall|j: int| 0 <= j < i ==> m[j].0 != k,
    ensures
        set_one_entries(m, k) == m.take(i) + set_one_entries(m.skip(i), k),
    decreases i,
{
    if i == 0 {
        assert(m.skip(0) =~= m);
        assert(m.take(0) + set_one_entries(m, k) =~= set_one_entries(m, k));
    } else {
        lemma_set_one_split(m, k, i - 1);
        assert(m.skip(i - 1)[0] == m[i - 1]);
        assert(m.skip(i - 1).drop_first() =~= m.skip(i));
        assert(set_one_entries(m.skip(i - 1), k) == seq![m[i - 1]] + set_one_entries(
            m.skip(i),
            k,
        ));
        assert(m.take(i - 1) + (seq![m[i - 1]] + set_one_entries(m.skip(i), k)) =~= m.take(i)
            + set_one_entries(m.skip(i), k));
    }
}

proof fn lemma_add_if_absent_split(m: Seq<(Seq<char>, u64)>, k: Seq<char>, i: int)
    requires
        0 <= i <= m.len(),
        forall|j: int| 0 <= j < i ==> m[j].0 != k,
    ensures
        add_if_absent_entries(m, k) == m.take(i) + add_if_absent_entries(m.skip(i), k),
    decreases i,
{
    if i == 0 {
        assert(m.skip(0) =~= m);
        assert(m.take(0) + add_if_absent_entries(m, k) =~= add_if_absent_entries(m, k));
    } else {
        lemma_add_if_absent_split(m, k, i - 1);
        assert(m.skip(i - 1)[0] == m[i - 1]);
        assert(m.skip(i - 1).drop_first() =~= m.skip(i));
        assert(add_if_absent_entries(m.skip(i - 1), k) == seq![m[i - 1]] + add_if_absent_entries(
            m.skip(i),
            k,
        ));
        assert(m.take(i - 1) + (seq![m[i - 1]] + add_if_absent_entries(m.skip(i), k)) =~= m.take(i)
            + add_if_absent_entries(m.skip(i), k));
    }
}

impl AnchorMap {
    pub fn new() -> (r: AnchorMap)
        ensures
            r@ == Seq::<(Seq<char>, u64)>::empty(),
    {
        let r = AnchorMap { entries: Vec::new() };
        proof {
            assert(r@ =~= Seq::<(Seq<char>, u64)>::empty());
        }
        r
    }

    fn find(&self, key: &String) -> (r: Option<usize>)
        ensures
            match r {
                Some(i) => i < self.entries@.len() && self@[i as int].0 == key@ && forall|j: int|
                    0 <= j < i ==> self@[j].0 != key@,
                None => forall|j: int| 0 <= j < self@.len() ==> self@[j].0 != key@,
            },
    {
        let n = self.entries.len();
        let mut i: usize = 0;
        while i < n
            invariant
                n == self.entries@.len(),
                i <= n,
                forall|j: int| 0 <= j < i ==> self@[j].0 != key@,
            decreases n - i,
        {
            proof {
                assert(self@[i as int] == (self.entries@[i as int].0@, self.entries@[i as int].1));
            }
            if crate::text::str_eq(self.entries[i].0.as_str(), key.as_str()) {
                return Some(i);
            }
            i += 1;
        }
        None
    }

    fn set_count(&mut self, i: usize, c: u64)
        requires
            i < old(self).entries@.len(),
        ensures
            final(self)@ =~= old(self)@.update(i as int, (old(self)@[i as int].0, c)),
    {
        let mut e = self.entries.remove(i);
        e.1 = c;
        self.entries.insert(i, e);
    }

    /// The heading rule of both anchor pipelines: raise the key's count by
    /// one, or enter it with count one.
    pub fn bump(&mut self, key: String)
        ensures
            final(self)@ == bump_entries(old(self)@, key@),
    {
        let ghost m = old(self)@;
        match self.find(&key) {
            Some(i) => {
                proof {
                    lemma_bump_split(m, key@, i as int);
                    assert(m.skip(i as int)[0] == m[i as int]);
                    assert(m.skip(i as int).drop_first() =~= m.skip(i as int + 1));
                }
                let c = self.entries[i].1;
                let nc = if c == u64::MAX {
                    c
                } else {
                    c + 1
                };
                self.set_count(i, nc);
                proof {
                    assert(self@ =~= m.take(i as int) + (seq![(m[i as int].0, bump_count(
                        m[i as int].1,
                    ))] + m.skip(i as int + 1)));
                }
            },
            None => {
                proof {
                    lemma_bump_split(m, key@, m.len() as int);
                    assert(m.skip(m.len() as int) =~= Seq::<(Seq<char>, u64)>::empty());
                }
                self.entries.push((key, 1));
                proof {
                    assert(self@ =~= m.take(m.len() as int) + bump_entries(
                        Seq::<(Seq<char>, u64)>::empty(),
                        key@,
                    ));
                }
            },
        }
    }

    /// The structural identifier rule: the key's count becomes one outright.
    pub fn set_one(&mut self, key: String)
        ensures
            final(self)@ == set_one_entries(old(self)@, key@),
    {
        let ghost m = old(self)@;
        match self.find(&key) {
            Some(i) => {
                proof {
                    lemma_set_one_split(m, key@, i as int);
                    assert(m.skip(i as int)[0] == m[i as int]);
                    assert(m.skip(i as int).drop_first() =~= m.skip(i as int + 1));
                }
                self.set_count(i, 1);
                proof {
                    assert(self@ =~= m.take(i as int) + (seq![(m[i as int].0, 1u64)] + m.skip(
                        i as int + 1,
                    )));
                }
            },
            None => {
                proof {
                    lemma_set_one_split(m, key@, m.len() as int);
                    assert(m.skip(m.len() as int) =~= Seq::<(Seq<char>, u64)>::empty());
                }
                self.entries.push((key, 1));
                proof {
                    assert(self@ =~= m.take(m.len() as int) + set_one_entries(
                        Seq::<(Seq<char>, u64)>::empty(),
                        key@,
                    ));
                }
            },
        }
    }

    /// The textual identifier rule: enter the key with count one only where
    /// it is absent.
    pub fn add_if_absent(&mut self, key: String)
        ensures
            final(self)@ == add_if_absent_entries(old(self)@, key@),
    {
        let ghost m = old(self)@;
        match self.find(&key) {
            Some(i) => {
                proof {
                    lemma_add_if_absent_split(m, key@, i as int);
                    assert(m.skip(i as int)[0] == m[i as int]);
                    assert(m.take(i as int) + m.skip(i as int) =~= m);
                }
            },
            None => {
                proof {
                    lemma_add_if_absent_split(m, key@, m.len() as int);
                    assert(m.skip(m.len() as int) =~= Seq::<(Seq<char>, u64)>::empty());
                }
                self.entries.push((key, 1));
                proof {
                    assert(self@ =~= m.take(m.len() as int) + add_if_absent_entries(
                        Seq::<(Seq<char>, u64)>::empty(),
                        key@,
                    ));
                }
            },
        }
    }
}

/// The occurrence map's well-formedness: no two entries share a key.
pub open spec fn distinct_keys(m: Seq<(Seq<char>, u64)>) -> bool {
    forall|i: int, j: int| 0 <= i < j < m.len() ==> m[i].0 != m[j].0
}

proof fn lemma_bump_entries_keys(m: Seq<(Seq<char>, u64)>, k: Seq<char>, i: int)
    requires
        0 <= i < bump_entries(m, k).len(),
    ensures
        bump_entries(m, k)[i].0 == k || exists|j: int|
            0 <= j < m.len() && m[j].0 == bump_entries(m, k)[i].0,
    decreases m.len(),
{
    let r = bump_entries(m, k);
    if m.len() == 0 {
        assert(r[i].0 == k);
    } else if m[0].0 == k {
        if i > 0 {
            assert(r[i] == m.drop_first()[i - 1]);
            assert(m.drop_first()[i - 1] == m[i]);
        }
    } else {
        if i == 0 {
            assert(r[0] == m[0]);
        } else {
            assert(r[i] == bump_entries(m.drop_first(), k)[i - 1]);
            lemma_bump_entries_keys(m.drop_first(), k, i - 1);
            if r[i].0 != k {
                let j = choose|j: int|
                    0 <= j < m.drop_first().len() && m.drop_first()[j].0 == r[i].0;
                assert(m[j + 1].0 == r[i].0);
            }
        }
    }
}

/// The heading rule keeps the map's keys unique.
pub proof fn lemma_bump_entries_distinct(m: Seq<(Seq<char>, u64)>, k: Seq<char>)
    requires
        distinct_keys(m),
    ensures
        distinct_keys(bump_entries(m, k)),
    decreases m.len(),
{
    let r = bump_entries(m, k);
    if m.len() == 0 {
        assert(r.len() == 1);
    } else if m[0].0 == k {
        assert forall|i: int, j: int| 0 <= i < j < r.len() implies r[i].0 != r[j].0 by {
            assert(r[i].0 == m[i].0 && r[j].0 == m[j].0);
        }
    } else {
        assert forall|i: int, j: int| 0 <= i < j < m.drop_first().len() implies m.drop_first()[i].0
            != m.drop_first()[j].0 by {
            assert(m.drop_first()[i] == m[i + 1] && m.drop_first()[j] == m[j + 1]);
        }
        lemma_bump_entries_distinct(m.drop_first(), k);
        let rest = bump_entries(m.drop_first(), k);
        assert forall|i: int, j: int| 0 <= i < j < r.len() implies r[i].0 != r[j].0 by {
            if i == 0 {
                assert(r[0] == m[0]);
                assert(r[j] == rest[j - 1]);
                lemma_bump_entries_keys(m.drop_first(), k, j - 1);
                if rest[j - 1].0 != k {
                    let q = choose|q: int|
                        0 <= q < m.drop_first().len() && m.drop_first()[q].0 == rest[j - 1].0;
                    assert(m[q + 1].0 == rest[j - 1].0);
                }
            } else {
                assert(r[i] == rest[i - 1] && r[j] == rest[j - 1]);
            }
        }
    }
}

proof fn lemma_set_one_entries_keys(m: Seq<(Seq<char>, u64)>, k: Seq<char>, i: int)
    requires
        0 <= i < set_one_entries(m, k).len(),
    ensures
        set_one_entries(m, k)[i].0 == k || exists|j: int|
            0 <= j < m.len() && m[j].0 == set_one_entries(m, k)[i].0,
    decreases m.len(),
{
    let r = set_one_entries(m, k);
    if m.len() == 0 {
        assert(r[i].0 == k);
    } else if m[0].0 == k {
        if i > 0 {
            assert(r[i] == m.drop_first()[i - 1]);
            assert(m.drop_first()[i - 1] == m[i]);
        }
    } else {
        if i == 0 {
            assert(r[0] == m[0]);
        } else {
            assert(r[i] == set_one_entries(m.drop_first(), k)[i - 1]);
            lemma_set_one_entries_keys(m.drop_first(), k, i - 1);
            if r[i].0 != k {
                let j = choose|j: int|
                    0 <= j < m.drop_first().len() && m.drop_first()[j].0 == r[i].0;
                assert(m[j + 1].0 == r[i].0);
            }
        }
    }
}

/// The structural identifier rule keeps the map's keys unique.
pub proof fn lemma_set_one_entries_distinct(m: Seq<(Seq<char>, u64)>, k: Seq<char>)
    requires
        distinct_keys(m),
    ensures
        distinct_keys(set_one_entries(m, k)),
    decreases m.len(),
{
    let r = set_one_entries(m, k);
    if m.len() == 0 {
        assert(r.len() == 1);
    } else if m[0].0 == k {
        assert forall|i: int, j: int| 0 <= i < j < r.len() implies r[i].0 != r[j].0 by {
            assert(r[i].0 == m[i].0 && r[j].0 == m[j].0);
        }
    } else {
        assert forall|i: int, j: int| 0 <= i < j < m.drop_first().len() implies m.drop_first()[i].0
            != m.drop_first()[j].0 by {
            assert(m.drop_first()[i] == m[i + 1] && m.drop_first()[j] == m[j + 1]);
        }
        lemma_set_one_entries_distinct(m.drop_first(), k);
        let rest = set_one_entries(m.drop_first(), k);
        assert forall|i: int, j: int| 0 <= i < j < r.len() implies r[i].0 != r[j].0 by {
            if i == 0 {
                assert(r[0] == m[0]);
                assert(r[j] == rest[j - 1]);
                lemma_set_one_entries_keys(m.drop_first(), k, j - 1);
                if rest[j - 1].0 != k {
                    let q = choose|q: int|
                        0 <= q < m.drop_first().len() && m.drop_first()[q].0 == rest[j - 1].0;
                    assert(m[q + 1].0 == rest[j - 1].0);
                }
            } else {
                assert(r[i] == rest[i - 1] && r[j] == rest[j - 1]);
            }
        }
    }
}

proof fn lemma_add_if_absent_entries_keys(m: Seq<(Seq<char>, u64)>, k: Seq<char>, i: int)
    requires
        0 <= i < add_if_absent_entries(m, k).len(),
    ensures
        add_if_absent_entries(m, k)[i].0 == k || exists|j: int|
            0 <= j < m.len() && m[j].0 == add_if_absent_entries(m, k)[i].0,
    decreases m.len(),
{
    let r = add_if_absent_entries(m, k);
    if m.len() == 0 {
        assert(r[i].0 == k);
    } else if m[0].0 == k {
    } else {
        if i == 0 {
            assert(r[0] == m[0]);
        } else {
            assert(r[i] == add_if_absent_entries(m.drop_first(), k)[i - 1]);
            lemma_add_if_absent_entries_keys(m.drop_first(), k, i - 1);
            if r[i].0 != k {
                let j = choose|j: int|
                    0 <= j < m.drop_first().len() && m.drop_first()[j].0 == r[i].0;
                assert(m[j + 1].0 == r[i].0);
            }
        }
    }
}

/// The textual identifier rule keeps the map's keys unique.
pub proof fn lemma_add_if_absent_entries_distinct(m: Seq<(Seq<char>, u64)>, k: Seq<char>)
    requires
        distinct_keys(m),
    ensures
        distinct_keys(add_if_absent_entries(m, k)),
    decreases m.len(),
{
    let r = add_if_absent_entries(m, k);
    if m.len() == 0 {
        assert(r.len() == 1);
    } else if m[0].0 == k {
    } else {
        assert forall|i: int, j: int| 0 <= i < j < m.drop_first().len() implies m.drop_first()[i].0
            != m.drop_first()[j].0 by {
            assert(m.drop_first()[i] == m[i + 1] && m.drop_first()[j] == m[j + 1]);
        }
        lemma_add_if_absent_entries_distinct(m.drop_first(), k);
        let rest = add_if_absent_entries(m.drop_first(), k);
        assert forall|i: int, j: int| 0 <= i < j < r.len() implies r[i].0 != r[j].0 by {
            if i == 0 {
                assert(r[0] == m[0]);
                assert(r[j] == rest[j - 1]);
                lemma_add_if_absent_entries_keys(m.drop_first(), k, j - 1);
                if rest[j - 1].0 != k {
                    let q = choose|q: int|
                        0 <= q < m.drop_first().len() && m.drop_first()[q].0 == rest[j - 1].0;
                    assert(m[q + 1].0 == rest[j - 1].0);
                }
            } else {
                assert(r[i] == rest[i - 1] && r[j] == rest[j - 1]);
            }
        }
    }
}

/// The decimal digit for a value below ten.
pub open spec fn dec_digit(n: nat) -> char {
    if n == 0 {
        '0'
    } else if n == 1 {
        '1'
    } else if n == 2 {
        '2'
    } else if n == 3 {
        '3'
    } else if n == 4 {
        '4'
    } else if n == 5 {
        '5'
    } else if n == 6 {
        '6'
    } else if n == 7 {
        '7'
    } else if n == 8 {
        '8'
    } else {
        '9'
    }
}

/// The decimal rendering of a number, most significant digit first.
pub open spec fn dec_chars(n: nat) -> Seq<char>
    decreases n,
{
    if n < 10 {
        seq![dec_digit(n)]
    } else {
        dec_chars(n / 10) + seq![dec_digit(n % 10)]
    }
}

fn digit_of(d: u64) -> (r: char)
    requires
        d < 10,
    ensures
        r == dec_digit(d as nat),
{
    if d == 0 {
        '0'
    } else if d == 1 {
        '1'
    } else if d == 2 {
        '2'
    } else if d == 3 {
        '3'
    } else if d == 4 {
        '4'
    } else if d == 5 {
        '5'
    } else if d == 6 {
        '6'
    } else if d == 7 {
        '7'
    } else if d == 8 {
        '8'
    } else {
        '9'
    }
}

fn push_dec(n: u64, out: &mut Vec<char>)
    ensures
        final(out)@ == old(out)@ + dec_chars(n as nat),
    decreases n,
{
    if n < 10 {
        out.push(digit_of(n));
        proof {
            assert(out@ =~= old(out)@ + dec_chars(n as nat));
        }
    } else {
        push_dec(n / 10, out);
        out.push(digit_of(n % 10));
        proof {
            assert((n / 10) as nat == (n as nat) / 10);
            assert((n % 10) as nat == (n as nat) % 10);
            assert(out@ =~= old(out)@ + dec_chars(n as nat));
        }
    }
}

/// The anchor emitted for the `k`-th occurrence of a slug: `#slug` for the
/// first, `#slug-k` for every later one.
pub open spec fn anchor_chars(slug: Seq<char>, k: nat) -> Seq<char> {
    if k == 0 {
        seq!['#'] + slug
    } else {
        seq!['#'] + slug + seq!['-'] + dec_chars(k)
    }
}

/// All anchors emitted for one map entry, in occurrence order.
pub open spec fn entry_anchors(k: Seq<char>, c: u64) -> Seq<Seq<char>> {
    Seq::new(c as nat, |j: int| anchor_chars(k, j as nat))
}

/// The finalized anchor list of a whole map, entry by entry.
pub open spec fn dedup_entries(m: Seq<(Seq<char>, u64)>) -> Seq<Seq<char>>
    decreases m.len(),
{
    if m.len() == 0 {
        Seq::<Seq<char>>::empty()
    } else {
        entry_anchors(m[0].0, m[0].1) + dedup_entries(m.drop_first())
    }
}

/// The views of a vector of strings, as sequences of characters.
pub open spec fn strs_view(v: Seq<String>) -> Seq<Seq<char>> {
    v.map_values(|s: String| s@)
}

fn anchor_string(slug: &String, k: u64) -> (r: String)
    ensures
        r@ == anchor_chars(slug@, k as nat),
{
    let mut v: Vec<char> = Vec::new();
    v.push('#');
    let mut sc = str_to_chars(slug.as_str());
    v.append(&mut sc);
    if k > 0 {
        v.push('-');
        push_dec(k, &mut v);
        proof {
            assert(v@ =~= anchor_chars(slug@, k as nat));
        }
    } else {
        proof {
            assert(v@ =~= anchor_chars(slug@, k as nat));
        }
    }
    chars_to_string(&v)
}

/// Finalize an occurrence map into the anchor list: an entry with count `n`
/// yields `#slug`, `#slug-1`, ..., `#slug-(n-1)`. The list's order follows
/// the map's entry order; consumers treat it as a set.
pub fn deduplicate_anchors(anchor_occurrences: AnchorMap) -> (r: Vec<String>)
    ensures
        strs_view(r@) == dedup_entries(anchor_occurrences@),
{
    let ghost m = anchor_occurrences@;
    let n = anchor_occurrences.entries.len();
    let mut out: Vec<String> = Vec::new();
    proof {
        assert(m.skip(0) =~= m);
        assert(strs_view(out@) + dedup_entries(m) =~= dedup_entries(m));
    }
    let mut i: usize = 0;
    while i < n
        invariant
            n == anchor_occurrences.entries@.len(),
            i <= n,
            m == anchor_occurrences@,
            dedup_entries(m) == strs_view(out@) + dedup_entries(m.skip(i as int)),
        decreases n - i,
    {
        proof {
            assert(m.skip(i as int)[0] == m[i as int]);
            assert(m.skip(i as int).drop_first() =~= m.skip(i as int + 1));
        }
        let entry_count = anchor_occurrences.entries[i].1;
        let mut j: u64 = 0;
        while j < entry_count
            invariant
                n == anchor_occurrences.entries@.len(),
                i < n,
                m == anchor_occurrences@,
                j <= entry_count,
                entry_count == m[i as int].1,
                dedup_entries(m) == strs_view(out@) + entry_anchors(m[i as int].0, entry_count).skip(
                    j as int,
                ) + dedup_entries(m.skip(i as int + 1)),
            decreases entry_count - j,
        {
            let ghost prev = out@;
            let a = anchor_string(&anchor_occurrences.entries[i].0, j);
            out.push(a);
            j += 1;
            proof {
                assert(strs_view(out@) =~= strs_view(prev).push(anchor_chars(
                    m[i as int].0,
                    (j - 1) as nat,
                )));
                assert(entry_anchors(m[i as int].0, entry_count).skip(j - 1)[0] == anchor_chars(
                    m[i as int].0,
                    (j - 1) as nat,
                ));
                assert(strs_view(prev) + entry_anchors(m[i as int].0, entry_count).skip(j - 1)
                    =~= strs_view(out@) + entry_anchors(m[i as int].0, entry_count).skip(j as int));
                assert(strs_view(prev) + entry_anchors(m[i as int].0, entry_count).skip(j - 1)
                    + dedup_entries(m.skip(i as int + 1)) =~= strs_view(out@) + entry_anchors(
                    m[i as int].0,
                    entry_count,
                ).skip(j as int) + dedup_entries(m.skip(i as int + 1)));
            }
        }
        proof {
            assert(entry_anchors(m[i as int].0, entry_count).skip(entry_count as int)
                =~= Seq::<Seq<char>>::empty());
            assert(strs_view(out@) + Seq::<Seq<char>>::empty() + dedup_entries(
                m.skip(i as int + 1),
            ) =~= strs_view(out@) + dedup_entries(m.skip(i as int + 1)));
        }
        i += 1;
    }
    proof {
        assert(m.skip(n as int) =~= Seq::<(Seq<char>, u64)>::empty());
        assert(strs_view(out@) + Seq::<Seq<char>>::empty() =~= strs_view(out@));
    }
    out
}

} // verus!
