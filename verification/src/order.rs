//! The order of keys: bytes compared one by one from the front, a shorter
//! key before every longer one that begins with it.

use vstd::prelude::*;
use vstd::slice::slice_to_vec;

verus! {

/// Whether `a` comes before `b`.
pub open spec fn lex_lt(a: Seq<u8>, b: Seq<u8>) -> bool
    decreases a.len(),
{
    if b.len() == 0 {
        false
    } else if a.len() == 0 {
        true
    } else if a[0] != b[0] {
        a[0] < b[0]
    } else {
        lex_lt(a.drop_first(), b.drop_first())
    }
}

/// How one key stands to another.
#[derive(Debug, Clone, Copy, PartialEq, Eq, Structural)]
pub enum Order {
    Before,
    Same,
    After,
}

/// No key comes before itself.
pub proof fn lemma_lex_irreflexive(a: Seq<u8>)
    ensures
        !lex_lt(a, a),
    decreases a.len(),
{
    if a.len() > 0 {
        lemma_lex_irreflexive(a.drop_first());
    }
}

/// Of two keys, at most one comes before the other.
pub proof fn lemma_lex_asymmetric(a: Seq<u8>, b: Seq<u8>)
    requires
        lex_lt(a, b),
    ensures
        !lex_lt(b, a),
    decreases a.len(),
{
    if a.len() > 0 && b.len() > 0 && a[0] == b[0] {
        lemma_lex_asymmetric(a.drop_first(), b.drop_first());
    }
}

/// What comes before a key comes before all that the key comes before.
pub proof fn lemma_lex_transitive(a: Seq<u8>, b: Seq<u8>, c: Seq<u8>)
    requires
        lex_lt(a, b),
        lex_lt(b, c),
    ensures
        lex_lt(a, c),
    decreases a.len(),
{
    if a.len() > 0 && b.len() > 0 && c.len() > 0 && a[0] == b[0] && b[0] == c[0] {
        lemma_lex_transitive(a.drop_first(), b.drop_first(), c.drop_first());
    }
}

/// Of two different keys, one comes before the other.
pub proof fn lemma_lex_total(a: Seq<u8>, b: Seq<u8>)
    ensures
        lex_lt(a, b) || a == b || lex_lt(b, a),
    decreases a.len(),
{
    if a.len() > 0 && b.len() > 0 && a[0] == b[0] {
        lemma_lex_total(a.drop_first(), b.drop_first());
        if a.drop_first() == b.drop_first() {
            assert(a =~= seq![a[0]] + a.drop_first());
            assert(b =~= seq![b[0]] + b.drop_first());
        }
    } else if a.len() == 0 && b.len() == 0 {
        assert(a =~= b);
    }
}

/// Two keys that agree on their first `i` bytes stand to each other as what
/// follows those bytes.
pub proof fn lemma_lex_skip(a: Seq<u8>, b: Seq<u8>, i: int)
    requires
        0 <= i <= a.len(),
        i <= b.len(),
        forall|j: int| 0 <= j < i ==> a[j] == b[j],
    ensures
        lex_lt(a, b) == lex_lt(a.skip(i), b.skip(i)),
        lex_lt(b, a) == lex_lt(b.skip(i), a.skip(i)),
    decreases i,
{
    if i == 0 {
        assert(a.skip(0) =~= a);
        assert(b.skip(0) =~= b);
    } else {
        let x = a.drop_first();
        let y = b.drop_first();
        assert forall|j: int| 0 <= j < i - 1 implies x[j] == y[j] by {
            assert(x[j] == a[j + 1] && y[j] == b[j + 1]);
        }
        lemma_lex_skip(x, y, i - 1);
        assert(x.skip(i - 1) =~= a.skip(i));
        assert(y.skip(i - 1) =~= b.skip(i));
        assert(a[0] == b[0]);
    }
}

/// The least key that comes after `key`: the key with a zero byte added.
pub open spec fn successor(key: Seq<u8>) -> Seq<u8> {
    key.push(0)
}

/// The keys that come after `key` are those from its successor on.
pub proof fn lemma_successor(key: Seq<u8>, other: Seq<u8>)
    ensures
        lex_lt(key, other) == !lex_lt(other, successor(key)),
    decreases key.len(),
{
    let next = successor(key);
    assert(next.len() == key.len() + 1);
    if key.len() == 0 {
        assert(next[0] == 0);
        if other.len() > 0 && other[0] == 0 {
            assert(next.drop_first().len() == 0);
            assert(!lex_lt(other.drop_first(), next.drop_first()));
        }
    } else if other.len() > 0 {
        assert(next[0] == key[0]);
        if key[0] == other[0] {
            assert(next.drop_first() =~= successor(key.drop_first()));
            lemma_successor(key.drop_first(), other.drop_first());
        }
    }
}

/// How `a` stands to `b`.
pub fn compare(a: &[u8], b: &[u8]) -> (r: Order)
    ensures
        (r is Before) == lex_lt(a@, b@),
        (r is Same) == (a@ == b@),
        (r is After) == lex_lt(b@, a@),
{
    let mut i: usize = 0;
    while i < a.len() && i < b.len()
        invariant
            i <= a.len(),
            i <= b.len(),
            forall|j: int| 0 <= j < i ==> a@[j] == b@[j],
        decreases a.len() - i,
    {
        if a[i] != b[i] {
            proof {
                lemma_lex_skip(a@, b@, i as int);
                assert(a@.skip(i as int)[0] == a@[i as int]);
                assert(b@.skip(i as int)[0] == b@[i as int]);
                assert(a@ != b@);
            }
            if a[i] < b[i] {
                proof {
                    lemma_lex_asymmetric(a@, b@);
                }
                return Order::Before;
            } else {
                proof {
                    lemma_lex_asymmetric(b@, a@);
                }
                return Order::After;
            }
        }
        i += 1;
    }
    proof {
        lemma_lex_skip(a@, b@, i as int);
    }
    if a.len() < b.len() {
        proof {
            lemma_lex_asymmetric(a@, b@);
        }
        Order::Before
    } else if a.len() > b.len() {
        proof {
            lemma_lex_asymmetric(b@, a@);
        }
        Order::After
    } else {
        proof {
            assert(a@ =~= b@);
            lemma_lex_irreflexive(a@);
        }
        Order::Same
    }
}

/// Whether `key` begins with the bytes of `prefix`.
pub fn has_prefix(key: &[u8], prefix: &[u8]) -> (r: bool)
    ensures
        r == prefix@.is_prefix_of(key@),
{
    if prefix.len() > key.len() {
        return false;
    }
    let mut i: usize = 0;
    while i < prefix.len()
        invariant
            i <= prefix.len() <= key.len(),
            forall|j: int| 0 <= j < i ==> key@[j] == prefix@[j],
        decreases prefix.len() - i,
    {
        if key[i] != prefix[i] {
            assert(key@.subrange(0, prefix.len() as int)[i as int] != prefix@[i as int]);
            return false;
        }
        i += 1;
    }
    assert(prefix@ =~= key@.subrange(0, prefix.len() as int));
    true
}

/// The keys that a scan asks for.
#[derive(Debug, Clone, PartialEq, Eq)]
pub enum KeyRange {
    /// The keys from `from` to `to`, both included.
    Between { from: Vec<u8>, to: Vec<u8> },
    /// The keys that begin with the prefix.
    Prefix(Vec<u8>),
}

/// The keys that a scan asks for.
pub enum KeySpan {
    Between { from: Seq<u8>, to: Seq<u8> },
    Prefix(Seq<u8>),
}

impl View for KeyRange {
    type V = KeySpan;

    open spec fn view(&self) -> KeySpan {
        match self {
            KeyRange::Between { from, to } => KeySpan::Between { from: from@, to: to@ },
            KeyRange::Prefix(prefix) => KeySpan::Prefix(prefix@),
        }
    }
}

impl KeySpan {
    /// Whether `key` is one of the keys asked for.
    pub open spec fn contains(self, key: Seq<u8>) -> bool {
        match self {
            KeySpan::Between { from, to } => !lex_lt(key, from) && !lex_lt(to, key),
            KeySpan::Prefix(prefix) => prefix.is_prefix_of(key),
        }
    }
}

impl KeyRange {
    /// The keys after `last` up to `to`: the range with which a scan that
    /// stopped at `last` is taken up again.
    pub fn resume(last: &[u8], to: &[u8]) -> (r: KeyRange)
        ensures
            r@ == (KeySpan::Between { from: successor(last@), to: to@ }),
    {
        let mut from = slice_to_vec(last);
        from.push(0);
        KeyRange::Between { from, to: slice_to_vec(to) }
    }

    /// Whether `key` is one of the keys asked for.
    pub fn contains(&self, key: &[u8]) -> (r: bool)
        ensures
            r == self@.contains(key@),
    {
        match self {
            KeyRange::Between { from, to } => {
                let low = compare(key, from.as_slice());
                let high = compare(to.as_slice(), key);
                !matches!(low, Order::Before) && !matches!(high, Order::Before)
            },
            KeyRange::Prefix(prefix) => has_prefix(key, prefix.as_slice()),
        }
    }
}

} // verus!
