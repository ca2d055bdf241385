//! A hierarchical key-value configuration: keys are dotted paths, values are
//! text, and typed properties are read from the text on demand.

use crate::error::{ConfigError, ConfigFault};
use crate::text::{
    chars_of, decimal_u64, find_char, is_digit, is_digit_char, lemma_position_bounds,
    parse_decimal, position, same_text, starts_with, string_of,
};
use vstd::prelude::*;
use vstd::string::StringExecFns;

verus! {

/// One setting: a dotted key and its value.
#[derive(Debug, Clone)]
pub struct Entry {
    pub key: String,
    pub value: String,
}

impl View for Entry {
    type V = (Seq<char>, Seq<char>);

    open spec fn view(&self) -> (Seq<char>, Seq<char>) {
        (self.key@, self.value@)
    }
}

/// The settings of a list of entries, in the order of the list.
pub open spec fn settings(v: Seq<Entry>) -> Seq<(Seq<char>, Seq<char>)> {
    Seq::new(v.len(), |i: int| v[i]@)
}

/// The texts of a list of strings, in the order of the list.
pub open spec fn texts(v: Seq<String>) -> Seq<Seq<char>> {
    Seq::new(v.len(), |i: int| v[i]@)
}

/// The key made of `a`, a dot and `b`.
pub open spec fn dotted(a: Seq<char>, b: Seq<char>) -> Seq<char> {
    a.push('.') + b
}

/// The value that `e` holds under `key`: that of the last entry with the key.
pub open spec fn lookup(e: Seq<(Seq<char>, Seq<char>)>, key: Seq<char>) -> Option<Seq<char>>
    decreases e.len(),
{
    if e.len() == 0 {
        None
    } else if e.last().0 == key {
        Some(e.last().1)
    } else {
        lookup(e.drop_last(), key)
    }
}

/// The entries of `e` whose key is not `key`, in their order.
pub open spec fn without_key(e: Seq<(Seq<char>, Seq<char>)>, key: Seq<char>) -> Seq<
    (Seq<char>, Seq<char>),
>
    decreases e.len(),
{
    if e.len() == 0 {
        e
    } else if e.last().0 == key {
        without_key(e.drop_last(), key)
    } else {
        without_key(e.drop_last(), key).push(e.last())
    }
}

/// Whether `key` lies below `prefix`: it is `prefix`, a dot, and more.
pub open spec fn is_under(key: Seq<char>, prefix: Seq<char>) -> bool {
    prefix.push('.').is_prefix_of(key)
}

/// The path segment of `key` that follows `prefix` and its dot.
pub open spec fn sub_key(key: Seq<char>, prefix: Seq<char>) -> Seq<char> {
    let rest = key.skip(prefix.len() as int + 1);
    rest.take(position(rest, '.'))
}

/// The distinct segments that follow `prefix` among the keys of `e`, each at
/// the place of its first occurrence.
pub open spec fn sub_keys(e: Seq<(Seq<char>, Seq<char>)>, prefix: Seq<char>) -> Seq<Seq<char>>
    decreases e.len(),
{
    if e.len() == 0 {
        Seq::empty()
    } else {
        let before = sub_keys(e.drop_last(), prefix);
        let key = e.last().0;
        if is_under(key, prefix) && !before.contains(sub_key(key, prefix)) {
            before.push(sub_key(key, prefix))
        } else {
            before
        }
    }
}

/// Whether an entry with this key belongs to the values of `prefix`: the key
/// is `prefix` itself or lies below it.
pub open spec fn belongs_to(key: Seq<char>, prefix: Seq<char>) -> bool {
    key == prefix || is_under(key, prefix)
}

/// The values of the entries of `e` that belong to `prefix`, in their order.
pub open spec fn values_of(e: Seq<(Seq<char>, Seq<char>)>, prefix: Seq<char>) -> Seq<Seq<char>>
    decreases e.len(),
{
    if e.len() == 0 {
        Seq::empty()
    } else if belongs_to(e.last().0, prefix) {
        values_of(e.drop_last(), prefix).push(e.last().1)
    } else {
        values_of(e.drop_last(), prefix)
    }
}

/// A duration in milliseconds.
#[derive(Debug, Clone, Copy, PartialEq, Eq, Structural)]
pub struct Millis(pub u64);

/// The number of leading decimal digits of `s`.
pub open spec fn digits_len(s: Seq<char>) -> int
    decreases s.len(),
{
    if s.len() > 0 && is_digit(s[0]) {
        1 + digits_len(s.drop_first())
    } else {
        0
    }
}

/// How many milliseconds one unit of time is worth. No unit means
/// milliseconds.
pub open spec fn unit_millis(unit: Seq<char>) -> Option<nat> {
    if unit.len() == 0 || unit == seq!['m', 's'] {
        Some(1)
    } else if unit == seq!['s'] {
        Some(1_000)
    } else if unit == seq!['m'] {
        Some(60_000)
    } else if unit == seq!['h'] {
        Some(3_600_000)
    } else if unit == seq!['d'] {
        Some(86_400_000)
    } else {
        None
    }
}

/// The duration that `s` writes: a decimal number and then a unit, one of
/// `ms`, `s`, `m`, `h`, `d` or nothing, where the milliseconds fit in 64 bits.
pub open spec fn duration_millis(s: Seq<char>) -> Option<u64> {
    let k = digits_len(s);
    match (decimal_u64(s.take(k)), unit_millis(s.skip(k))) {
        (Some(n), Some(f)) => if n * f <= u64::MAX {
            Some((n * f) as u64)
        } else {
            None
        },
        _ => None,
    }
}

/// A type of value that can be read from the text of a setting.
pub trait ParseValue: Sized {
    /// The value that `text` writes, where it writes one.
    spec fn parsed(text: Seq<char>) -> Option<Self>;

    /// Reads a value from `text`.
    fn parse_value(text: &str) -> (r: Option<Self>)
        ensures
            r == Self::parsed(text@),
    ;
}

impl ParseValue for u64 {
    open spec fn parsed(text: Seq<char>) -> Option<u64> {
        decimal_u64(text)
    }

    fn parse_value(text: &str) -> (r: Option<u64>) {
        let v = chars_of(text);
        assert(v@.subrange(0, v.len() as int) =~= v@);
        parse_decimal(&v, 0, v.len())
    }
}

impl ParseValue for u32 {
    open spec fn parsed(text: Seq<char>) -> Option<u32> {
        match decimal_u64(text) {
            Some(n) => if n <= u32::MAX {
                Some(n as u32)
            } else {
                None
            },
            None => None,
        }
    }

    fn parse_value(text: &str) -> (r: Option<u32>) {
        match u64::parse_value(text) {
            Some(n) => if n <= 0xffff_ffff {
                Some(n as u32)
            } else {
                None
            },
            None => None,
        }
    }
}

impl ParseValue for u16 {
    open spec fn parsed(text: Seq<char>) -> Option<u16> {
        match decimal_u64(text) {
            Some(n) => if n <= u16::MAX {
                Some(n as u16)
            } else {
                None
            },
            None => None,
        }
    }

    fn parse_value(text: &str) -> (r: Option<u16>) {
        match u64::parse_value(text) {
            Some(n) => if n <= 0xffff {
                Some(n as u16)
            } else {
                None
            },
            None => None,
        }
    }
}

impl ParseValue for usize {
    open spec fn parsed(text: Seq<char>) -> Option<usize> {
        match decimal_u64(text) {
            Some(n) => if n <= usize::MAX {
                Some(n as usize)
            } else {
                None
            },
            None => None,
        }
    }

    fn parse_value(text: &str) -> (r: Option<usize>) {
        match u64::parse_value(text) {
            Some(n) => if n <= usize::MAX as u64 {
                Some(n as usize)
            } else {
                None
            },
            None => None,
        }
    }
}

impl ParseValue for bool {
    open spec fn parsed(text: Seq<char>) -> Option<bool> {
        if text == seq!['t', 'r', 'u', 'e'] {
            Some(true)
        } else if text == seq!['f', 'a', 'l', 's', 'e'] {
            Some(false)
        } else {
            None
        }
    }

    fn parse_value(text: &str) -> (r: Option<bool>) {
        let v = chars_of(text);
        if v.len() == 4 && v[0] == 't' && v[1] == 'r' && v[2] == 'u' && v[3] == 'e' {
            assert(v@ =~= seq!['t', 'r', 'u', 'e']);
            Some(true)
        } else if v.len() == 5 && v[0] == 'f' && v[1] == 'a' && v[2] == 'l' && v[3] == 's' && v[4]
            == 'e' {
            assert(v@ =~= seq!['f', 'a', 'l', 's', 'e']);
            Some(false)
        } else {
            assert(v@ != seq!['t', 'r', 'u', 'e']) by {
                if v@ == seq!['t', 'r', 'u', 'e'] {
                    assert(v@.len() == 4 && v@[0] == 't' && v@[1] == 'r' && v@[2] == 'u' && v@[3]
                        == 'e');
                }
            }
            assert(v@ != seq!['f', 'a', 'l', 's', 'e']) by {
                if v@ == seq!['f', 'a', 'l', 's', 'e'] {
                    assert(v@.len() == 5 && v@[0] == 'f' && v@[1] == 'a' && v@[2] == 'l' && v@[3]
                        == 's' && v@[4] == 'e');
                }
            }
            None
        }
    }
}

/// The number of leading digits of `v`.
fn leading_digits(v: &Vec<char>) -> (k: usize)
    ensures
        k == digits_len(v@),
        k <= v.len(),
{
    let mut k: usize = 0;
    assert(v@.skip(0) =~= v@);
    while k < v.len() && is_digit_char(v[k])
        invariant
            k <= v.len(),
            digits_len(v@) == k + digits_len(v@.skip(k as int)),
        decreases v.len() - k,
    {
        assert(v@.skip(k as int).drop_first() =~= v@.skip(k + 1));
        k += 1;
    }
    k
}

/// The milliseconds of the unit written in `v[from..]`.
fn unit_factor(v: &Vec<char>, from: usize) -> (r: Option<u64>)
    requires
        from <= v.len(),
    ensures
        match r {
            Some(f) => unit_millis(v@.skip(from as int)) == Some(f as nat) && f <= 86_400_000,
            None => unit_millis(v@.skip(from as int)) is None,
        },
{
    let ghost u = v@.skip(from as int);
    let n = v.len() - from;
    if n == 0 {
        Some(1)
    } else if n == 1 {
        let c = v[from];
        assert(u.len() == 1 && u[0] == c);
        if c == 's' {
            assert(u =~= seq!['s']);
            Some(1_000)
        } else if c == 'm' {
            assert(u =~= seq!['m']);
            Some(60_000)
        } else if c == 'h' {
            assert(u =~= seq!['h']);
            Some(3_600_000)
        } else if c == 'd' {
            assert(u =~= seq!['d']);
            Some(86_400_000)
        } else {
            assert(seq!['s'][0] == 's' && seq!['m'][0] == 'm' && seq!['h'][0] == 'h' && seq!['d'][0]
                == 'd');
            None
        }
    } else if n == 2 && v[from] == 'm' && v[from + 1] == 's' {
        assert(u =~= seq!['m', 's']);
        Some(1)
    } else {
        assert(u.len() >= 2);
        assert(u != seq!['m', 's']) by {
            if u == seq!['m', 's'] {
                assert(u.len() == 2 && u[0] == 'm' && u[1] == 's');
            }
        }
        assert(seq!['s'].len() == 1 && seq!['m'].len() == 1 && seq!['h'].len() == 1 && seq![
            'd',
        ].len() == 1);
        None
    }
}

impl ParseValue for Millis {
    open spec fn parsed(text: Seq<char>) -> Option<Millis> {
        match duration_millis(text) {
            Some(n) => Some(Millis(n)),
            None => None,
        }
    }

    fn parse_value(text: &str) -> (r: Option<Millis>) {
        let v = chars_of(text);
        let k = leading_digits(&v);
        assert(v@.subrange(0, k as int) =~= v@.take(k as int));
        let number = parse_decimal(&v, 0, k);
        let factor = unit_factor(&v, k);
        match (number, factor) {
            (Some(n), Some(f)) => match n.checked_mul(f) {
                Some(ms) => Some(Millis(ms)),
                None => None,
            },
            _ => None,
        }
    }
}

/// A configuration: settings in the order in which they were made. Setting
/// a key again drops its earlier setting.
#[derive(Debug, Clone)]
pub struct Config {
    entries: Vec<Entry>,
}

impl View for Config {
    type V = Seq<(Seq<char>, Seq<char>)>;

    closed spec fn view(&self) -> Seq<(Seq<char>, Seq<char>)> {
        settings(self.entries@)
    }
}

impl Config {
    /// A configuration without settings.
    pub fn new() -> (c: Config)
        ensures
            c@ == Seq::<(Seq<char>, Seq<char>)>::empty(),
    {
        let c = Config { entries: Vec::new() };
        assert(c@ =~= Seq::empty());
        c
    }

    /// Sets `key` to `value`. An earlier setting of the key is dropped, and
    /// the new one comes last.
    pub fn set(&mut self, key: &str, value: &str)
        ensures
            final(self)@ == without_key(old(self)@, key@).push((key@, value@)),
    {
        let mut kept: Vec<Entry> = Vec::new();
        let mut i: usize = 0;
        while i < self.entries.len()
            invariant
                i <= self.entries.len(),
                settings(kept@) == without_key(settings(self.entries@).take(i as int), key@),
            decreases self.entries.len() - i,
        {
            let ghost e = settings(self.entries@);
            let ghost before = settings(kept@);
            assert(e.take(i + 1).drop_last() =~= e.take(i as int));
            assert(e.take(i + 1).last() == self.entries@[i as int]@);
            if !same_text(self.entries[i].key.as_str(), key) {
                let entry = Entry {
                    key: self.entries[i].key.clone(),
                    value: self.entries[i].value.clone(),
                };
                kept.push(entry);
                assert(settings(kept@) =~= before.push(self.entries@[i as int]@));
            }
            i += 1;
        }
        assert(settings(self.entries@).take(i as int) =~= settings(self.entries@));
        let ghost before = settings(kept@);
        let entry = Entry { key: String::from_str(key), value: String::from_str(value) };
        kept.push(entry);
        assert(settings(kept@) =~= before.push((key@, value@)));
        self.entries = kept;
    }

    /// The number of settings.
    pub fn len(&self) -> (n: usize)
        ensures
            n == self@.len(),
    {
        self.entries.len()
    }

    /// The value under `key`, where it has one.
    pub fn value(&self, key: &str) -> (r: Option<&str>)
        ensures
            match r {
                Some(v) => lookup(self@, key@) == Some(v@),
                None => lookup(self@, key@) is None,
            },
    {
        let ghost e = self@;
        let mut found: Option<usize> = None;
        let mut i: usize = 0;
        while i < self.entries.len()
            invariant
                i <= self.entries.len(),
                e == settings(self.entries@),
                match found {
                    Some(j) => j < i && lookup(e.take(i as int), key@) == Some(
                        self.entries@[j as int].value@,
                    ),
                    None => lookup(e.take(i as int), key@) is None,
                },
            decreases self.entries.len() - i,
        {
            assert(e.take(i + 1).drop_last() =~= e.take(i as int));
            assert(e.take(i + 1).last() == self.entries@[i as int]@);
            if same_text(self.entries[i].key.as_str(), key) {
                found = Some(i);
            }
            i += 1;
        }
        assert(e.take(i as int) =~= e);
        match found {
            Some(j) => Some(self.entries[j].value.as_str()),
            None => None,
        }
    }

    /// The value under `key`, which must have one.
    pub fn value_require(&self, key: &str) -> (r: Result<&str, ConfigError>)
        ensures
            match r {
                Ok(v) => lookup(self@, key@) == Some(v@),
                Err(e) => lookup(self@, key@) is None && e@ == (ConfigFault::Missing { key: key@ }),
            },
    {
        match self.value(key) {
            Some(v) => Ok(v),
            None => Err(ConfigError::Missing { key: String::from_str(key) }),
        }
    }

    /// The value under `key` read as a `T`, where the key has a value.
    pub fn property<T: ParseValue>(&self, key: &str) -> (r: Result<Option<T>, ConfigError>)
        ensures
            r matches Ok(p) ==> p == property_of::<T>(self@, key@)->Ok_0,
            r matches Err(e) ==> property_of::<T>(self@, key@) == Err::<Option<T>, ConfigFault>(e@),
            r is Ok <==> property_of::<T>(self@, key@) is Ok,
    {
        match self.value(key) {
            None => Ok(None),
            Some(v) => match T::parse_value(v) {
                Some(t) => Ok(Some(t)),
                None => Err(
                    ConfigError::Invalid { key: String::from_str(key), value: String::from_str(v) },
                ),
            },
        }
    }

    /// The value under `key` read as a `T`; where the key has no value, the
    /// text `default` is read in its place.
    pub fn property_or_static<T: ParseValue>(&self, key: &str, default: &str) -> (r: Result<
        T,
        ConfigError,
    >)
        ensures
            r matches Ok(p) ==> p == property_or::<T>(self@, key@, default@)->Ok_0,
            r matches Err(e) ==> property_or::<T>(self@, key@, default@) == Err::<T, ConfigFault>(
                e@,
            ),
            r is Ok <==> property_or::<T>(self@, key@, default@) is Ok,
    {
        let text = match self.value(key) {
            Some(v) => v,
            None => default,
        };
        match T::parse_value(text) {
            Some(t) => Ok(t),
            None => Err(
                ConfigError::Invalid { key: String::from_str(key), value: String::from_str(text) },
            ),
        }
    }

    /// The distinct path segments that follow `prefix` among the keys, each
    /// at the place of its first occurrence.
    pub fn sub_keys(&self, prefix: &str) -> (r: Vec<String>)
        ensures
            texts(r@) == sub_keys(self@, prefix@),
    {
        let ghost e = self@;
        let mut head = chars_of(prefix);
        head.push('.');
        let mut out: Vec<String> = Vec::new();
        let mut i: usize = 0;
        while i < self.entries.len()
            invariant
                i <= self.entries.len(),
                e == settings(self.entries@),
                head@ == prefix@.push('.'),
                texts(out@) == sub_keys(e.take(i as int), prefix@),
            decreases self.entries.len() - i,
        {
            assert(e.take(i + 1).drop_last() =~= e.take(i as int));
            assert(e.take(i + 1).last() == self.entries@[i as int]@);
            let key = chars_of(self.entries[i].key.as_str());
            if starts_with(&key, &head) {
                let n = find_char(&key, head.len(), '.');
                assert(key@.skip(head.len() as int).take(n as int) =~= key@.subrange(
                    head.len() as int,
                    head.len() + n,
                ));
                let segment = string_of(&key, head.len(), head.len() + n);
                if !holds_text(&out, &segment) {
                    let ghost before = texts(out@);
                    out.push(segment);
                    assert(texts(out@) =~= before.push(segment@));
                }
            }
            i += 1;
        }
        assert(e.take(i as int) =~= e);
        out
    }

    /// The values of the settings whose key is `prefix` or lies below it, in
    /// their order.
    pub fn values(&self, prefix: &str) -> (r: Vec<String>)
        ensures
            texts(r@) == values_of(self@, prefix@),
    {
        let ghost e = self@;
        let mut head = chars_of(prefix);
        head.push('.');
        let mut out: Vec<String> = Vec::new();
        let mut i: usize = 0;
        while i < self.entries.len()
            invariant
                i <= self.entries.len(),
                e == settings(self.entries@),
                head@ == prefix@.push('.'),
                texts(out@) == values_of(e.take(i as int), prefix@),
            decreases self.entries.len() - i,
        {
            assert(e.take(i + 1).drop_last() =~= e.take(i as int));
            assert(e.take(i + 1).last() == self.entries@[i as int]@);
            let key = chars_of(self.entries[i].key.as_str());
            if same_text(self.entries[i].key.as_str(), prefix) || starts_with(&key, &head) {
                let ghost before = texts(out@);
                out.push(self.entries[i].value.clone());
                assert(texts(out@) =~= before.push(self.entries@[i as int].value@));
            }
            i += 1;
        }
        assert(e.take(i as int) =~= e);
        out
    }
}

/// What reading the value under `key` as a `T` gives: nothing where the key
/// has no value, the value where its text writes one, else the fault.
pub open spec fn property_of<T: ParseValue>(e: Seq<(Seq<char>, Seq<char>)>, key: Seq<char>)
    -> Result<Option<T>, ConfigFault> {
    match lookup(e, key) {
        None => Ok(None),
        Some(v) => match T::parsed(v) {
            Some(t) => Ok(Some(t)),
            None => Err(ConfigFault::Invalid { key, value: v }),
        },
    }
}

/// What reading the value under `key` as a `T` gives, with `default` read
/// where the key has no value.
pub open spec fn property_or<T: ParseValue>(
    e: Seq<(Seq<char>, Seq<char>)>,
    key: Seq<char>,
    default: Seq<char>,
) -> Result<T, ConfigFault> {
    let text = match lookup(e, key) {
        Some(v) => v,
        None => default,
    };
    match T::parsed(text) {
        Some(t) => Ok(t),
        None => Err(ConfigFault::Invalid { key, value: text }),
    }
}

/// Whether one of the strings of `list` holds the text of `s`.
pub fn holds_text(list: &Vec<String>, s: &String) -> (r: bool)
    ensures
        r == texts(list@).contains(s@),
{
    let mut i: usize = 0;
    while i < list.len()
        invariant
            i <= list.len(),
            forall|j: int| 0 <= j < i ==> texts(list@)[j] != s@,
        decreases list.len() - i,
    {
        if list[i] == *s {
            assert(texts(list@)[i as int] == s@);
            return true;
        }
        i += 1;
    }
    false
}

/// The key made of `a`, a dot and `b`.
pub fn join_key(a: &str, b: &str) -> (k: String)
    ensures
        k@ == dotted(a@, b@),
{
    let mut v = chars_of(a);
    v.push('.');
    let mut w = chars_of(b);
    let ghost head = v@;
    v.append(&mut w);
    assert(v@.subrange(0, v.len() as int) =~= head + b@);
    string_of(&v, 0, v.len())
}

/// After `set`, the key holds the new value.
pub proof fn lemma_set_then_lookup(e: Seq<(Seq<char>, Seq<char>)>, key: Seq<char>, value: Seq<char>)
    ensures
        lookup(without_key(e, key).push((key, value)), key) == Some(value),
{
}

/// After `set`, every other key holds what it held before.
pub proof fn lemma_set_keeps_others(
    e: Seq<(Seq<char>, Seq<char>)>,
    key: Seq<char>,
    value: Seq<char>,
    other: Seq<char>,
)
    requires
        other != key,
    ensures
        lookup(without_key(e, key).push((key, value)), other) == lookup(e, other),
    decreases e.len(),
{
    let w = without_key(e, key).push((key, value));
    assert(w.drop_last() =~= without_key(e, key));
    lemma_without_key_lookup(e, key, other);
}

/// Dropping one key leaves the value under every other key as it was.
pub proof fn lemma_without_key_lookup(
    e: Seq<(Seq<char>, Seq<char>)>,
    key: Seq<char>,
    other: Seq<char>,
)
    requires
        other != key,
    ensures
        lookup(without_key(e, key), other) == lookup(e, other),
    decreases e.len(),
{
    if e.len() > 0 {
        lemma_without_key_lookup(e.drop_last(), key, other);
        if e.last().0 != key {
            let w = without_key(e.drop_last(), key).push(e.last());
            assert(w.drop_last() =~= without_key(e.drop_last(), key));
        }
    }
}

/// A segment holds no dot: it ends where the next part of the key begins.
pub proof fn lemma_sub_key_is_one_segment(key: Seq<char>, prefix: Seq<char>)
    requires
        is_under(key, prefix),
    ensures
        sub_key(key, prefix).len() <= key.len() - prefix.len() - 1,
        forall|i: int| 0 <= i < sub_key(key, prefix).len() ==> sub_key(key, prefix)[i] != '.',
        prefix.push('.') + sub_key(key, prefix) == key.take(
            prefix.len() as int + 1 + sub_key(key, prefix).len(),
        ),
{
    let rest = key.skip(prefix.len() as int + 1);
    lemma_position_bounds(rest, '.');
    let n = position(rest, '.');
    assert(prefix.push('.') + rest.take(n) =~= key.take(prefix.len() as int + 1 + n));
}

/// The segments that `sub_keys` lists are exactly those that follow `prefix`
/// in some key, and none is listed twice.
pub proof fn lemma_sub_keys(e: Seq<(Seq<char>, Seq<char>)>, prefix: Seq<char>)
    ensures
        sub_keys(e, prefix).no_duplicates(),
        forall|s: Seq<char>| #[trigger]
            sub_keys(e, prefix).contains(s) <==> exists|i: int|
                0 <= i < e.len() && is_under(#[trigger] e[i].0, prefix) && sub_key(e[i].0, prefix)
                    == s,
    decreases e.len(),
{
    if e.len() > 0 {
        let d = e.drop_last();
        lemma_sub_keys(d, prefix);
        let before = sub_keys(d, prefix);
        let now = sub_keys(e, prefix);
        let key = e.last().0;
        assert forall|s: Seq<char>| #[trigger]
            now.contains(s) <==> exists|i: int|
                0 <= i < e.len() && is_under(#[trigger] e[i].0, prefix) && sub_key(e[i].0, prefix)
                    == s by {
            if now.contains(s) {
                if before.contains(s) {
                    let i = choose|i: int|
                        0 <= i < d.len() && is_under(#[trigger] d[i].0, prefix) && sub_key(
                            d[i].0,
                            prefix,
                        ) == s;
                    assert(e[i] == d[i]);
                } else {
                    let j = choose|j: int| 0 <= j < now.len() && now[j] == s;
                    if j < before.len() && now.len() > before.len() {
                        assert(before[j] == s);
                    }
                    assert(is_under(e[e.len() - 1].0, prefix));
                }
            }
            if exists|i: int|
                0 <= i < e.len() && is_under(#[trigger] e[i].0, prefix) && sub_key(e[i].0, prefix)
                    == s {
                let i = choose|i: int|
                    0 <= i < e.len() && is_under(#[trigger] e[i].0, prefix) && sub_key(
                        e[i].0,
                        prefix,
                    ) == s;
                if i < d.len() {
                    assert(d[i] == e[i]);
                    assert(before.contains(s));
                    let j = choose|j: int| 0 <= j < before.len() && before[j] == s;
                    assert(now[j] == s);
                } else {
                    if before.contains(s) {
                        let j = choose|j: int| 0 <= j < before.len() && before[j] == s;
                        assert(now[j] == s);
                    } else {
                        assert(now[now.len() - 1] == s);
                    }
                }
            }
        }
    }
}

} // verus!
