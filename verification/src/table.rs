//! A table held in memory: rows in the order of their keys, each key once,
//! read as a map from key to value.

use crate::order::{
    compare, lemma_lex_asymmetric, lemma_lex_irreflexive, lemma_lex_total, lemma_lex_transitive,
    lemma_successor, lex_lt, successor, KeyRange, KeySpan, Order,
};
use vstd::prelude::*;
use vstd::slice::slice_to_vec;

verus! {

/// A key and the value under it.
#[derive(Debug, PartialEq, Eq)]
pub struct Row {
    pub key: Vec<u8>,
    pub value: Vec<u8>,
}

impl View for Row {
    type V = (Seq<u8>, Seq<u8>);

    open spec fn view(&self) -> (Seq<u8>, Seq<u8>) {
        (self.key@, self.value@)
    }
}

/// The keys and values of a list of rows, in the order of the list.
pub open spec fn pairs(rows: Seq<Row>) -> Seq<(Seq<u8>, Seq<u8>)> {
    Seq::new(rows.len(), |i: int| rows[i]@)
}

/// Whether each key comes before all that follow it.
pub open spec fn sorted(r: Seq<(Seq<u8>, Seq<u8>)>) -> bool {
    forall|i: int, j: int| 0 <= i < j < r.len() ==> lex_lt(#[trigger] r[i].0, #[trigger] r[j].0)
}

/// Whether one of the rows has the key.
pub open spec fn has_key(r: Seq<(Seq<u8>, Seq<u8>)>, key: Seq<u8>) -> bool {
    exists|i: int| 0 <= i < r.len() && (#[trigger] r[i]).0 == key
}

/// The place of a row with the key.
pub open spec fn place_of(r: Seq<(Seq<u8>, Seq<u8>)>, key: Seq<u8>) -> int {
    choose|i: int| 0 <= i < r.len() && (#[trigger] r[i]).0 == key
}

/// The rows as a map from key to value.
pub open spec fn as_map(r: Seq<(Seq<u8>, Seq<u8>)>) -> Map<Seq<u8>, Seq<u8>> {
    Map::new(|key: Seq<u8>| has_key(r, key), |key: Seq<u8>| r[place_of(r, key)].1)
}

/// Whether `p` is where `key` stands or would stand: every row before `p`
/// has a lesser key, and every row from `p` on a greater one, but for the
/// row at `p` itself where it has the key.
pub open spec fn is_place(r: Seq<(Seq<u8>, Seq<u8>)>, key: Seq<u8>, p: int, found: bool) -> bool {
    &&& 0 <= p <= r.len()
    &&& forall|i: int| 0 <= i < p ==> lex_lt((#[trigger] r[i]).0, key)
    &&& found ==> p < r.len() && r[p].0 == key
    &&& !found ==> forall|i: int| p <= i < r.len() ==> lex_lt(key, (#[trigger] r[i]).0)
}

/// In a sorted table a key stands at one place only, and the map holds for
/// it the value found there.
pub proof fn lemma_row_in_map(r: Seq<(Seq<u8>, Seq<u8>)>, i: int)
    requires
        sorted(r),
        0 <= i < r.len(),
    ensures
        has_key(r, r[i].0),
        place_of(r, r[i].0) == i,
        as_map(r).contains_key(r[i].0),
        as_map(r)[r[i].0] == r[i].1,
{
    let key = r[i].0;
    let j = place_of(r, key);
    if j < i {
        assert(lex_lt(r[j].0, r[i].0));
        lemma_lex_irreflexive(key);
    } else if i < j {
        assert(lex_lt(r[i].0, r[j].0));
        lemma_lex_irreflexive(key);
    }
}

/// A key that has a place but was not found there is in no row.
pub proof fn lemma_absent(r: Seq<(Seq<u8>, Seq<u8>)>, key: Seq<u8>, p: int)
    requires
        is_place(r, key, p, false),
    ensures
        !has_key(r, key),
        !as_map(r).contains_key(key),
{
    if has_key(r, key) {
        let i = place_of(r, key);
        lemma_lex_irreflexive(key);
        if i < p {
            assert(lex_lt(r[i].0, key));
        } else {
            assert(lex_lt(key, r[i].0));
        }
    }
}

/// A new row put at the place of its key leaves the table sorted, and the
/// map gains the row.
pub proof fn lemma_insert(r: Seq<(Seq<u8>, Seq<u8>)>, p: int, key: Seq<u8>, value: Seq<u8>)
    requires
        sorted(r),
        is_place(r, key, p, false),
    ensures
        sorted(r.insert(p, (key, value))),
        as_map(r.insert(p, (key, value))) == as_map(r).insert(key, value),
{
    let n = r.insert(p, (key, value));
    assert forall|i: int, j: int| 0 <= i < j < n.len() implies lex_lt(
        #[trigger] n[i].0,
        #[trigger] n[j].0,
    ) by {
        if j < p {
            assert(n[i] == r[i] && n[j] == r[j]);
        } else if j == p {
            assert(n[i] == r[i]);
        } else if i < p {
            assert(n[i] == r[i] && n[j] == r[j - 1]);
        } else if i == p {
            assert(n[j] == r[j - 1]);
        } else {
            assert(n[i] == r[i - 1] && n[j] == r[j - 1]);
        }
    }
    lemma_absent(r, key, p);
    assert forall|k: Seq<u8>| has_key(n, k) <==> (k == key || has_key(r, k)) by {
        if has_key(n, k) {
            let i = place_of(n, k);
            if i < p {
                assert(r[i].0 == k);
            } else if i > p {
                assert(r[i - 1].0 == k);
            }
        }
        if k == key {
            assert(n[p].0 == k);
        } else if has_key(r, k) {
            let i = place_of(r, k);
            if i < p {
                assert(n[i].0 == k);
            } else {
                assert(n[i + 1].0 == k);
            }
        }
    }
    assert forall|k: Seq<u8>| has_key(n, k) implies #[trigger] as_map(n)[k] == as_map(r).insert(
        key,
        value,
    )[k] by {
        let i = place_of(n, k);
        lemma_row_in_map(n, i);
        if i < p {
            lemma_row_in_map(r, i);
        } else if i > p {
            lemma_row_in_map(r, i - 1);
        }
    }
    assert(as_map(n) =~= as_map(r).insert(key, value));
}

/// A new value put in the row of its key leaves the table sorted, and the
/// map holds the new value for the key.
pub proof fn lemma_update(r: Seq<(Seq<u8>, Seq<u8>)>, p: int, value: Seq<u8>)
    requires
        sorted(r),
        0 <= p < r.len(),
    ensures
        sorted(r.update(p, (r[p].0, value))),
        as_map(r.update(p, (r[p].0, value))) == as_map(r).insert(r[p].0, value),
{
    let key = r[p].0;
    let n = r.update(p, (key, value));
    assert forall|i: int, j: int| 0 <= i < j < n.len() implies lex_lt(
        #[trigger] n[i].0,
        #[trigger] n[j].0,
    ) by {
        assert(n[i].0 == r[i].0 && n[j].0 == r[j].0);
    }
    assert forall|k: Seq<u8>| has_key(n, k) <==> (k == key || has_key(r, k)) by {
        if has_key(n, k) {
            let i = place_of(n, k);
            assert(r[i].0 == k);
        }
        if k == key {
            assert(n[p].0 == k);
        } else if has_key(r, k) {
            let i = place_of(r, k);
            assert(n[i].0 == k);
        }
    }
    assert forall|k: Seq<u8>| has_key(n, k) implies #[trigger] as_map(n)[k] == as_map(r).insert(
        key,
        value,
    )[k] by {
        let i = place_of(n, k);
        lemma_row_in_map(n, i);
        lemma_row_in_map(r, i);
        lemma_row_in_map(r, p);
    }
    assert(as_map(n) =~= as_map(r).insert(key, value));
}

/// A row taken out leaves the table sorted, and the map loses its key.
pub proof fn lemma_remove(r: Seq<(Seq<u8>, Seq<u8>)>, p: int)
    requires
        sorted(r),
        0 <= p < r.len(),
    ensures
        sorted(r.remove(p)),
        as_map(r.remove(p)) == as_map(r).remove(r[p].0),
{
    let key = r[p].0;
    let n = r.remove(p);
    assert forall|i: int, j: int| 0 <= i < j < n.len() implies lex_lt(
        #[trigger] n[i].0,
        #[trigger] n[j].0,
    ) by {
        if j < p {
            assert(n[i] == r[i] && n[j] == r[j]);
        } else if i < p {
            assert(n[i] == r[i] && n[j] == r[j + 1]);
        } else {
            assert(n[i] == r[i + 1] && n[j] == r[j + 1]);
        }
    }
    assert forall|k: Seq<u8>| has_key(n, k) <==> (k != key && has_key(r, k)) by {
        if has_key(n, k) {
            let i = place_of(n, k);
            if i < p {
                assert(r[i].0 == k);
                lemma_row_in_map(r, i);
            } else {
                assert(r[i + 1].0 == k);
                lemma_row_in_map(r, i + 1);
            }
            lemma_row_in_map(r, p);
        }
        if k != key && has_key(r, k) {
            let i = place_of(r, k);
            if i < p {
                assert(n[i].0 == k);
            } else {
                assert(n[i - 1].0 == k);
            }
        }
    }
    assert forall|k: Seq<u8>| has_key(n, k) implies #[trigger] as_map(n)[k] == as_map(r).remove(
        key,
    )[k] by {
        let i = place_of(n, k);
        lemma_row_in_map(n, i);
        if i < p {
            lemma_row_in_map(r, i);
        } else {
            lemma_row_in_map(r, i + 1);
        }
    }
    assert(as_map(n) =~= as_map(r).remove(key));
}

/// Where `key` stands among the rows, or would stand, and whether it is
/// there.
fn search(rows: &Vec<Row>, key: &[u8]) -> (r: (usize, bool))
    requires
        sorted(pairs(rows@)),
    ensures
        is_place(pairs(rows@), key@, r.0 as int, r.1),
{
    let ghost p = pairs(rows@);
    let mut low: usize = 0;
    let mut high: usize = rows.len();
    while low < high
        invariant
            low <= high <= rows.len(),
            p == pairs(rows@),
            sorted(p),
            forall|i: int| 0 <= i < low ==> lex_lt((#[trigger] p[i]).0, key@),
            forall|i: int| high <= i < p.len() ==> lex_lt(key@, (#[trigger] p[i]).0),
        decreases high - low,
    {
        let mid = low + (high - low) / 2;
        assert(p[mid as int] == rows@[mid as int]@);
        match compare(rows[mid].key.as_slice(), key) {
            Order::Same => {
                assert forall|i: int| 0 <= i < mid implies lex_lt((#[trigger] p[i]).0, key@) by {
                    assert(lex_lt(p[i].0, p[mid as int].0));
                }
                return (mid, true);
            },
            Order::Before => {
                assert forall|i: int| 0 <= i < mid + 1 implies lex_lt((#[trigger] p[i]).0, key@) by {
                    if i < mid {
                        assert(lex_lt(p[i].0, p[mid as int].0));
                        lemma_lex_transitive(p[i].0, p[mid as int].0, key@);
                    }
                }
                low = mid + 1;
            },
            Order::After => {
                assert forall|i: int| mid <= i < p.len() implies lex_lt(
                    key@,
                    (#[trigger] p[i]).0,
                ) by {
                    if i > mid {
                        assert(lex_lt(p[mid as int].0, p[i].0));
                        lemma_lex_transitive(key@, p[mid as int].0, p[i].0);
                    }
                }
                high = mid;
            },
        }
    }
    (low, false)
}

/// The value under `key`, where a row has the key.
fn find<'a>(rows: &'a Vec<Row>, key: &[u8]) -> (r: Option<&'a Vec<u8>>)
    requires
        sorted(pairs(rows@)),
    ensures
        match r {
            Some(value) => as_map(pairs(rows@)).contains_key(key@) && as_map(pairs(rows@))[key@]
                == value@,
            None => !as_map(pairs(rows@)).contains_key(key@),
        },
{
    let (p, found) = search(rows, key);
    if found {
        proof {
            assert(pairs(rows@)[p as int] == rows@[p as int]@);
            lemma_row_in_map(pairs(rows@), p as int);
        }
        Some(&rows[p].value)
    } else {
        proof {
            lemma_absent(pairs(rows@), key@, p as int);
        }
        None
    }
}

/// Puts `value` under `key`, in place of the value that the key had.
fn upsert(rows: &mut Vec<Row>, key: &[u8], value: &[u8])
    requires
        sorted(pairs(old(rows)@)),
    ensures
        sorted(pairs(final(rows)@)),
        as_map(pairs(final(rows)@)) == as_map(pairs(old(rows)@)).insert(key@, value@),
{
    let ghost before = pairs(rows@);
    let (p, found) = search(rows, key);
    let row = Row { key: slice_to_vec(key), value: slice_to_vec(value) };
    if found {
        assert(before[p as int] == rows@[p as int]@);
        rows.set(p, row);
        proof {
            assert(pairs(rows@) =~= before.update(p as int, (key@, value@)));
            lemma_update(before, p as int, value@);
        }
    } else {
        rows.insert(p, row);
        proof {
            assert(pairs(rows@) =~= before.insert(p as int, (key@, value@)));
            lemma_insert(before, p as int, key@, value@);
        }
    }
}

/// Takes out the row of `key`, where there is one.
fn take_out(rows: &mut Vec<Row>, key: &[u8])
    requires
        sorted(pairs(old(rows)@)),
    ensures
        sorted(pairs(final(rows)@)),
        as_map(pairs(final(rows)@)) == as_map(pairs(old(rows)@)).remove(key@),
{
    let ghost before = pairs(rows@);
    let (p, found) = search(rows, key);
    if found {
        assert(before[p as int] == rows@[p as int]@);
        rows.remove(p);
        proof {
            assert(pairs(rows@) =~= before.remove(p as int));
            lemma_remove(before, p as int);
        }
    } else {
        proof {
            lemma_absent(before, key@, p as int);
            assert(as_map(before) =~= as_map(before).remove(key@));
        }
    }
}

/// Whether `out` is what a scan of `map` for the keys of `span` returns: the
/// rows of the map whose keys the span contains, each once, in the order of
/// their keys.
pub open spec fn is_scan(
    map: Map<Seq<u8>, Seq<u8>>,
    span: KeySpan,
    out: Seq<(Seq<u8>, Seq<u8>)>,
) -> bool {
    &&& sorted(out)
    &&& forall|i: int|
        0 <= i < out.len() ==> span.contains((#[trigger] out[i]).0) && map.contains_key(out[i].0)
            && map[out[i].0] == out[i].1
    &&& forall|key: Seq<u8>| #[trigger]
        map.contains_key(key) && span.contains(key) ==> has_key(out, key)
}

/// The greatest key of a sorted table is the key of its last row: of two
/// sorted tables with the same keys, the last rows have the same key.
proof fn lemma_same_last(a: Seq<(Seq<u8>, Seq<u8>)>, b: Seq<(Seq<u8>, Seq<u8>)>)
    requires
        sorted(a),
        sorted(b),
        forall|key: Seq<u8>| has_key(a, key) <==> has_key(b, key),
        a.len() > 0,
    ensures
        b.len() > 0,
        b.last().0 == a.last().0,
{
    let x = a.last();
    lemma_row_in_map(a, a.len() - 1);
    assert(has_key(b, x.0));
    let j = place_of(b, x.0);
    assert(b[j].0 == x.0);
    if j < b.len() - 1 {
        let y = b.last();
        assert(lex_lt(b[j].0, y.0));
        lemma_row_in_map(b, b.len() - 1);
        assert(has_key(a, y.0));
        let i = place_of(a, y.0);
        assert(a[i].0 == y.0);
        if i == a.len() - 1 {
            lemma_lex_irreflexive(x.0);
        } else {
            assert(lex_lt(a[i].0, x.0));
            lemma_lex_asymmetric(x.0, y.0);
        }
    }
}

/// What is left of a sorted table without its last row is sorted, and has
/// the keys of the table but for the last.
proof fn lemma_front(a: Seq<(Seq<u8>, Seq<u8>)>)
    requires
        sorted(a),
        a.len() > 0,
    ensures
        sorted(a.drop_last()),
        forall|key: Seq<u8>| has_key(a.drop_last(), key) <==> has_key(a, key) && key != a.last().0,
{
    let c = a.drop_last();
    assert forall|i: int, k: int| 0 <= i < k < c.len() implies lex_lt(
        #[trigger] c[i].0,
        #[trigger] c[k].0,
    ) by {
        assert(c[i] == a[i] && c[k] == a[k]);
    }
    assert forall|key: Seq<u8>| has_key(c, key) <==> has_key(a, key) && key != a.last().0 by {
        if has_key(c, key) {
            let i = place_of(c, key);
            assert(a[i].0 == key);
            assert(lex_lt(a[i].0, a[a.len() - 1].0));
            if key == a.last().0 {
                lemma_lex_irreflexive(key);
            }
        }
        if has_key(a, key) && key != a.last().0 {
            let i = place_of(a, key);
            assert(c[i].0 == key);
        }
    }
}

/// Two sorted tables with the same keys, and the same value under each, are
/// the same table.
pub proof fn lemma_same_rows(a: Seq<(Seq<u8>, Seq<u8>)>, b: Seq<(Seq<u8>, Seq<u8>)>)
    requires
        sorted(a),
        sorted(b),
        forall|key: Seq<u8>| has_key(a, key) <==> has_key(b, key),
        forall|i: int, j: int|
            0 <= i < a.len() && 0 <= j < b.len() && (#[trigger] a[i]).0 == (#[trigger] b[j]).0
                ==> a[i].1 == b[j].1,
    ensures
        a == b,
    decreases a.len(),
{
    if a.len() == 0 {
        if b.len() > 0 {
            assert(has_key(b, b[0].0));
        }
        assert(a =~= b);
    } else {
        lemma_same_last(a, b);
        lemma_front(a);
        lemma_front(b);
        let c = a.drop_last();
        let d = b.drop_last();
        assert(a[a.len() - 1].0 == b[b.len() - 1].0);
        assert(a.last().1 == b.last().1);
        assert forall|i: int, k: int|
            0 <= i < c.len() && 0 <= k < d.len() && (#[trigger] c[i]).0 == (#[trigger] d[k]).0
                implies c[i].1 == d[k].1 by {
            assert(c[i] == a[i] && d[k] == b[k]);
        }
        assert forall|key: Seq<u8>| has_key(c, key) <==> has_key(d, key) by {
            assert(has_key(c, key) <==> has_key(a, key) && key != a.last().0);
            assert(has_key(d, key) <==> has_key(b, key) && key != b.last().0);
            assert(has_key(a, key) <==> has_key(b, key));
        }
        lemma_same_rows(c, d);
        assert(a =~= c.push(a.last()));
        assert(b =~= d.push(b.last()));
    }
}

/// A scan is determined by what the map holds and what the span contains:
/// any two results are the same, row for row.
pub proof fn lemma_scan_unique(
    map: Map<Seq<u8>, Seq<u8>>,
    span: KeySpan,
    a: Seq<(Seq<u8>, Seq<u8>)>,
    b: Seq<(Seq<u8>, Seq<u8>)>,
)
    requires
        is_scan(map, span, a),
        is_scan(map, span, b),
    ensures
        a == b,
{
    assert forall|key: Seq<u8>| has_key(a, key) <==> has_key(b, key) by {
        if has_key(a, key) {
            let i = place_of(a, key);
            assert(map.contains_key(a[i].0) && span.contains(a[i].0));
        }
        if has_key(b, key) {
            let i = place_of(b, key);
            assert(map.contains_key(b[i].0) && span.contains(b[i].0));
        }
    }
    lemma_same_rows(a, b);
}

/// A scan returns no key twice, and its keys are exactly those of the map
/// that the span contains.
pub proof fn lemma_scan_keys(
    map: Map<Seq<u8>, Seq<u8>>,
    span: KeySpan,
    out: Seq<(Seq<u8>, Seq<u8>)>,
)
    requires
        is_scan(map, span, out),
    ensures
        forall|i: int, j: int|
            0 <= i < out.len() && 0 <= j < out.len() && i != j ==> (#[trigger] out[i]).0
                != (#[trigger] out[j]).0,
        forall|key: Seq<u8>| has_key(out, key) <==> map.contains_key(key) && span.contains(key),
{
    assert forall|i: int, j: int|
        0 <= i < out.len() && 0 <= j < out.len() && i != j implies (#[trigger] out[i]).0 != (
    #[trigger] out[j]).0 by {
        lemma_row_in_map(out, i);
        lemma_row_in_map(out, j);
    }
    assert forall|key: Seq<u8>| has_key(out, key) <==> map.contains_key(key) && span.contains(
        key,
    ) by {
        if has_key(out, key) {
            let i = place_of(out, key);
            assert(map.contains_key(out[i].0) && span.contains(out[i].0));
        }
    }
}

/// A scan can be taken up where it stopped: what follows its row `i` is
/// the scan of the keys from the successor of that row's key on.
pub proof fn lemma_resume(
    map: Map<Seq<u8>, Seq<u8>>,
    from: Seq<u8>,
    to: Seq<u8>,
    out: Seq<(Seq<u8>, Seq<u8>)>,
    i: int,
)
    requires
        is_scan(map, KeySpan::Between { from, to }, out),
        0 <= i < out.len(),
    ensures
        is_scan(map, KeySpan::Between { from: successor(out[i].0), to }, out.skip(i + 1)),
{
    let last = out[i].0;
    let span = KeySpan::Between { from: successor(last), to };
    let rest = out.skip(i + 1);
    assert forall|x: int, y: int| 0 <= x < y < rest.len() implies lex_lt(
        #[trigger] rest[x].0,
        #[trigger] rest[y].0,
    ) by {
        assert(rest[x] == out[x + i + 1] && rest[y] == out[y + i + 1]);
    }
    assert forall|x: int| 0 <= x < rest.len() implies span.contains((#[trigger] rest[x]).0)
        && map.contains_key(rest[x].0) && map[rest[x].0] == rest[x].1 by {
        assert(rest[x] == out[x + i + 1]);
        assert(lex_lt(out[i].0, out[x + i + 1].0));
        lemma_successor(last, rest[x].0);
    }
    assert forall|key: Seq<u8>| #[trigger]
        map.contains_key(key) && span.contains(key) implies has_key(rest, key) by {
        lemma_successor(last, key);
        assert(lex_lt(last, key));
        if lex_lt(key, from) {
            lemma_lex_total(from, last);
            if lex_lt(from, last) {
                lemma_lex_transitive(key, from, last);
            }
            lemma_lex_asymmetric(last, key);
        }
        assert(has_key(out, key));
        let j = place_of(out, key);
        if j <= i {
            if j < i {
                assert(lex_lt(out[j].0, out[i].0));
                lemma_lex_asymmetric(last, key);
            } else {
                lemma_lex_irreflexive(key);
            }
        }
        assert(rest[j - i - 1].0 == key);
    }
}

/// The rows whose keys `range` contains, in the order of their keys.
fn scan(rows: &Vec<Row>, range: &KeyRange) -> (out: Vec<Row>)
    requires
        sorted(pairs(rows@)),
    ensures
        is_scan(as_map(pairs(rows@)), range@, pairs(out@)),
{
    let ghost p = pairs(rows@);
    let ghost map = as_map(p);
    let mut out: Vec<Row> = Vec::new();
    let mut i: usize = 0;
    while i < rows.len()
        invariant
            i <= rows.len(),
            p == pairs(rows@),
            map == as_map(p),
            sorted(p),
            sorted(pairs(out@)),
            forall|x: int|
                0 <= x < out@.len() ==> range@.contains((#[trigger] pairs(out@)[x]).0)
                    && map.contains_key(pairs(out@)[x].0) && map[pairs(out@)[x].0] == pairs(
                    out@,
                )[x].1,
            forall|x: int|
                0 <= x < out@.len() ==> exists|j: int|
                    0 <= j < i && (#[trigger] p[j]).0 == (#[trigger] pairs(out@)[x]).0,
            forall|j: int|
                0 <= j < i && range@.contains((#[trigger] p[j]).0) ==> has_key(
                    pairs(out@),
                    p[j].0,
                ),
        decreases rows.len() - i,
    {
        let ghost before = pairs(out@);
        assert(p[i as int] == rows@[i as int]@);
        proof {
            lemma_row_in_map(p, i as int);
        }
        if range.contains(rows[i].key.as_slice()) {
            let row = Row {
                key: slice_to_vec(rows[i].key.as_slice()),
                value: slice_to_vec(rows[i].value.as_slice()),
            };
            out.push(row);
            proof {
                let after = pairs(out@);
                assert(after =~= before.push(p[i as int]));
                assert forall|x: int, y: int| 0 <= x < y < after.len() implies lex_lt(
                    #[trigger] after[x].0,
                    #[trigger] after[y].0,
                ) by {
                    assert(after[x] == before[x]);
                    if y < before.len() {
                        assert(after[y] == before[y]);
                    } else {
                        let j = choose|j: int|
                            0 <= j < i && (#[trigger] p[j]).0 == (#[trigger] before[x]).0;
                        assert(lex_lt(p[j].0, p[i as int].0));
                    }
                }
                assert forall|x: int| 0 <= x < after.len() implies exists|j: int|
                    0 <= j < i + 1 && (#[trigger] p[j]).0 == (#[trigger] after[x]).0 by {
                    if x < before.len() {
                        assert(after[x] == before[x]);
                        let j = choose|j: int|
                            0 <= j < i && (#[trigger] p[j]).0 == (#[trigger] before[x]).0;
                        assert(p[j].0 == after[x].0);
                    } else {
                        assert(p[i as int].0 == after[x].0);
                    }
                }
                assert forall|x: int| 0 <= x < after.len() implies range@.contains(
                    (#[trigger] after[x]).0,
                ) && map.contains_key(after[x].0) && map[after[x].0] == after[x].1 by {
                    if x < before.len() {
                        assert(after[x] == before[x]);
                    }
                }
                assert forall|j: int|
                    0 <= j < i + 1 && range@.contains((#[trigger] p[j]).0) implies has_key(
                    after,
                    p[j].0,
                ) by {
                    if j < i {
                        let x = place_of(before, p[j].0);
                        assert(after[x] == before[x]);
                    } else {
                        assert(after[before.len() as int].0 == p[j].0);
                    }
                }
            }
        }
        i += 1;
    }
    proof {
        let after = pairs(out@);
        assert forall|key: Seq<u8>| #[trigger]
            map.contains_key(key) && range@.contains(key) implies has_key(after, key) by {
            let j = place_of(p, key);
            assert(p[j].0 == key);
        }
    }
    out
}

/// A table: rows in the order of their keys, each key once.
#[derive(Debug)]
pub struct Table {
    rows: Vec<Row>,
}

impl View for Table {
    type V = Map<Seq<u8>, Seq<u8>>;

    closed spec fn view(&self) -> Map<Seq<u8>, Seq<u8>> {
        as_map(pairs(self.rows@))
    }
}

impl Table {
    /// Whether the table is sound: its rows stand in the order of their
    /// keys, so that no key occurs twice.
    pub closed spec fn wf(&self) -> bool {
        sorted(pairs(self.rows@))
    }

    /// A table without rows.
    pub fn new() -> (t: Table)
        ensures
            t.wf(),
            t@ == Map::<Seq<u8>, Seq<u8>>::empty(),
    {
        let t = Table { rows: Vec::new() };
        assert(pairs(t.rows@) =~= Seq::empty());
        assert(t@ =~= Map::empty());
        t
    }

    /// The value under `key`, where a row has the key.
    pub fn get(&self, key: &[u8]) -> (r: Option<&Vec<u8>>)
        requires
            self.wf(),
        ensures
            match r {
                Some(value) => self@.contains_key(key@) && self@[key@] == value@,
                None => !self@.contains_key(key@),
            },
    {
        find(&self.rows, key)
    }

    /// Puts `value` under `key`, in place of the value that the key had.
    pub fn put(&mut self, key: &[u8], value: &[u8])
        requires
            old(self).wf(),
        ensures
            final(self).wf(),
            final(self)@ == old(self)@.insert(key@, value@),
    {
        upsert(&mut self.rows, key, value);
    }

    /// Takes out the row of `key`, where there is one.
    pub fn remove(&mut self, key: &[u8])
        requires
            old(self).wf(),
        ensures
            final(self).wf(),
            final(self)@ == old(self)@.remove(key@),
    {
        take_out(&mut self.rows, key);
    }

    /// The rows whose keys `range` contains, each once, in the order of
    /// their keys.
    pub fn scan(&self, range: &KeyRange) -> (out: Vec<Row>)
        requires
            self.wf(),
        ensures
            is_scan(self@, range@, pairs(out@)),
    {
        scan(&self.rows, range)
    }
}

} // verus!
