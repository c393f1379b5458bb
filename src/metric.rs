//! The uniform metric model: one value type and the snapshot that maps metric
//! keys to values.

use vstd::prelude::*;
use crate::text::same_text;
use vstd::arithmetic::div_mod::{lemma_div_is_ordered, lemma_div_by_multiple};

verus! {

/// Fractional readings are held as whole numbers of millionths of their unit.
pub const FRACTION_SCALE: i64 = 1000000;

/// One metric reading.
#[derive(Debug, PartialEq)]
pub enum MetricValue {
    Int(i64),
    /// A fractional reading, in millionths of its unit (`FRACTION_SCALE`).
    Float(i64),
    Text(String),
    Bool(bool),
}

impl Clone for MetricValue {
    fn clone(&self) -> (r: Self)
        ensures
            r == *self,
    {
        match self {
            MetricValue::Int(v) => MetricValue::Int(*v),
            MetricValue::Float(v) => MetricValue::Float(*v),
            MetricValue::Text(s) => MetricValue::Text(s.clone()),
            MetricValue::Bool(b) => MetricValue::Bool(*b),
        }
    }
}

/// A full hundred percent, in millionths of a percent.
pub const PERCENT_FULL: i64 = 100000000;

/// `part` as a percentage of `whole`, in millionths of a percent, rounded
/// down; a part above the whole counts as the whole, and a zero whole gives 0.
pub open spec fn percent(part: nat, whole: nat) -> int {
    if whole == 0 {
        0
    } else {
        (if part > whole { whole } else { part }) * PERCENT_FULL / (whole as int)
    }
}

pub proof fn lemma_percent_bounds(part: nat, whole: nat)
    ensures
        0 <= percent(part, whole) <= PERCENT_FULL,
{
    if whole > 0 {
        let p: int = if part > whole { whole as int } else { part as int };
        assert(p * PERCENT_FULL <= (whole as int) * PERCENT_FULL) by (nonlinear_arith)
            requires
                p <= whole,
                0 <= p,
        ;
        lemma_div_is_ordered(p * PERCENT_FULL, (whole as int) * PERCENT_FULL, whole as int);
        assert(((PERCENT_FULL as int) * (whole as int)) / (whole as int) == PERCENT_FULL) by {
            lemma_div_by_multiple(PERCENT_FULL as int, whole as int);
        }
        assert((whole as int) * PERCENT_FULL == (PERCENT_FULL as int) * (whole as int)) by (nonlinear_arith);
        assert(0 <= p * PERCENT_FULL) by (nonlinear_arith)
            requires
                0 <= p,
        ;
        assert(0 <= (p * PERCENT_FULL) / (whole as int)) by (nonlinear_arith)
            requires
                0 <= p * PERCENT_FULL,
                whole > 0,
        ;
    }
}

/// `part` as a percentage of `whole` (see `percent`).
pub fn percent_of(part: u64, whole: u64) -> (r: i64)
    ensures
        r == percent(part as nat, whole as nat),
        0 <= r <= PERCENT_FULL,
{
    proof {
        lemma_percent_bounds(part as nat, whole as nat);
    }
    if whole == 0 {
        0
    } else {
        let p: u64 = if part > whole { whole } else { part };
        let scaled: u128 = p as u128 * PERCENT_FULL as u128;
        let q: u128 = scaled / whole as u128;
        q as i64
    }
}

pub open spec fn ends_with(k: Seq<char>, suffix: Seq<char>) -> bool {
    k.len() >= suffix.len() && k.subrange(k.len() - suffix.len(), k.len() as int) == suffix
}

/// Every usage entry (a key ending in `usage_percent`) holds a percentage
/// between 0 and 100.
pub open spec fn usage_entries_in_range(m: Map<Seq<char>, MetricValue>) -> bool {
    forall|k: Seq<char>|
        m.contains_key(k) && ends_with(k, "usage_percent"@) ==> (m[k] matches MetricValue::Float(v)
            && 0 <= v <= PERCENT_FULL)
}

pub proof fn lemma_not_usage_key(k: Seq<char>)
    requires
        k.len() < 13 || k[k.len() - 13] != 'u',
    ensures
        !ends_with(k, "usage_percent"@),
{
    reveal_strlit("usage_percent");
    assert("usage_percent"@.len() == 13);
    assert("usage_percent"@[0] == 'u');
    if k.len() >= 13 {
        assert(k.subrange(k.len() - 13, k.len() as int)[0] == k[k.len() - 13]);
    }
}

/// A count as a signed metric; counts beyond the signed range stand at its maximum.
pub open spec fn count_int(n: nat) -> i64 {
    if n > i64::MAX {
        i64::MAX
    } else {
        n as i64
    }
}

pub fn count_metric(n: u64) -> (r: MetricValue)
    ensures
        r == MetricValue::Int(count_int(n as nat)),
{
    if n > i64::MAX as u64 {
        MetricValue::Int(i64::MAX)
    } else {
        MetricValue::Int(n as i64)
    }
}

/// The mapping that a sequence of entries denotes; a later entry wins.
pub open spec fn entries_map(s: Seq<(String, MetricValue)>) -> Map<Seq<char>, MetricValue>
    decreases s.len(),
{
    if s.len() == 0 {
        Map::empty()
    } else {
        entries_map(s.drop_last()).insert(s.last().0@, s.last().1)
    }
}

pub open spec fn keys_unique(s: Seq<(String, MetricValue)>) -> bool {
    forall|i: int, j: int|
        0 <= i < s.len() && 0 <= j < s.len() && i != j ==> #[trigger] s[i].0@ != #[trigger] s[j].0@
}

pub proof fn lemma_absent_key(s: Seq<(String, MetricValue)>, k: Seq<char>)
    requires
        forall|i: int| 0 <= i < s.len() ==> (#[trigger] s[i]).0@ != k,
    ensures
        !entries_map(s).contains_key(k),
    decreases s.len(),
{
    if s.len() > 0 {
        let d = s.drop_last();
        assert forall|i: int| 0 <= i < d.len() implies (#[trigger] d[i]).0@ != k by {
            assert(d[i] == s[i]);
        }
        lemma_absent_key(d, k);
        assert(s[s.len() - 1].0@ != k);
    }
}

pub proof fn lemma_present_key(s: Seq<(String, MetricValue)>, i: int)
    requires
        keys_unique(s),
        0 <= i < s.len(),
    ensures
        entries_map(s).contains_key(s[i].0@),
        entries_map(s)[s[i].0@] == s[i].1,
    decreases s.len(),
{
    if i < s.len() - 1 {
        let d = s.drop_last();
        assert forall|a: int, b: int|
            0 <= a < d.len() && 0 <= b < d.len() && a != b implies #[trigger] d[a].0@
            != #[trigger] d[b].0@ by {
            assert(d[a] == s[a] && d[b] == s[b]);
        }
        assert(d[i] == s[i]);
        lemma_present_key(d, i);
        assert(s[i].0@ != s[s.len() - 1].0@);
    }
}

pub proof fn lemma_replace_entry(s: Seq<(String, MetricValue)>, i: int, e: (String, MetricValue))
    requires
        keys_unique(s),
        0 <= i < s.len(),
        s[i].0@ == e.0@,
    ensures
        entries_map(s.update(i, e)) =~= entries_map(s).insert(e.0@, e.1),
    decreases s.len(),
{
    let u = s.update(i, e);
    let d = s.drop_last();
    if i == s.len() - 1 {
        assert(u.drop_last() =~= d);
    } else {
        assert(u.drop_last() =~= d.update(i, e));
        assert forall|a: int, b: int|
            0 <= a < d.len() && 0 <= b < d.len() && a != b implies #[trigger] d[a].0@
            != #[trigger] d[b].0@ by {
            assert(d[a] == s[a] && d[b] == s[b]);
        }
        lemma_replace_entry(d, i, e);
        assert(s[i].0@ != s[s.len() - 1].0@);
    }
}

/// A point-in-time mapping from metric key to value; keys are unique.
pub struct MetricSnapshot {
    entries: Vec<(String, MetricValue)>,
}

impl MetricSnapshot {
    /// Keys are unique.
    pub closed spec fn wf(&self) -> bool {
        keys_unique(self.entries@)
    }

    pub closed spec fn view(&self) -> Map<Seq<char>, MetricValue> {
        entries_map(self.entries@)
    }

    /// The entries in the order in which they were first inserted.
    pub closed spec fn entry_seq(&self) -> Seq<(String, MetricValue)> {
        self.entries@
    }

    /// The mapping holds exactly the keys of the entries, each with its entry's value.
    pub proof fn lemma_entries_mapping(&self)
        requires
            self.wf(),
        ensures
            forall|k: Seq<char>|
                #[trigger] self@.contains_key(k) <==> exists|i: int|
                    0 <= i < self.entry_seq().len() && (#[trigger] self.entry_seq()[i]).0@ == k,
            forall|i: int|
                0 <= i < self.entry_seq().len() ==> self@[(#[trigger] self.entry_seq()[i]).0@]
                    == self.entry_seq()[i].1,
    {
        let s = self.entries@;
        assert(self.entry_seq() == s);
        assert(self@ == entries_map(s));
        assert forall|k: Seq<char>| #[trigger] self@.contains_key(k) <==> exists|i: int|
            0 <= i < s.len() && (#[trigger] s[i]).0@ == k by {
            if exists|i: int| 0 <= i < s.len() && (#[trigger] s[i]).0@ == k {
                let i = choose|i: int| 0 <= i < s.len() && (#[trigger] s[i]).0@ == k;
                lemma_present_key(s, i);
            } else {
                lemma_absent_key(s, k);
            }
        }
        assert forall|i: int| 0 <= i < s.len() implies self@[(#[trigger] s[i]).0@] == s[i].1 by {
            lemma_present_key(s, i);
        }
    }

    pub fn new() -> (r: Self)
        ensures
            r.wf(),
            r@ == Map::<Seq<char>, MetricValue>::empty(),
            r.entry_seq().len() == 0,
    {
        MetricSnapshot { entries: Vec::new() }
    }

    /// Sets `key` to `value`, replacing an earlier value of the same key.
    pub fn insert(&mut self, key: String, value: MetricValue)
        requires
            old(self).wf(),
        ensures
            final(self).wf(),
            final(self)@ == old(self)@.insert(key@, value),
    {
        let mut i: usize = 0;
        while i < self.entries.len()
            invariant
                self.entries@ == old(self).entries@,
                keys_unique(self.entries@),
                i <= self.entries.len(),
                forall|j: int| 0 <= j < i ==> (#[trigger] self.entries@[j]).0@ != key@,
            decreases self.entries.len() - i,
        {
            if same_text(self.entries[i].0.as_str(), key.as_str()) {
                let ghost s = self.entries@;
                let ghost e = (key, value);
                proof {
                    lemma_replace_entry(s, i as int, e);
                }
                self.entries.set(i, (key, value));
                assert(self.entries@ == s.update(i as int, e));
                assert forall|a: int, b: int|
                    0 <= a < self.entries@.len() && 0 <= b < self.entries@.len() && a != b
                    implies #[trigger] self.entries@[a].0@ != #[trigger] self.entries@[b].0@ by {
                    assert(s[a].0@ != s[b].0@);
                }
                return;
            }
            i = i + 1;
        }
        let ghost s = self.entries@;
        proof {
            lemma_absent_key(s, key@);
        }
        self.entries.push((key, value));
        assert(self.entries@.drop_last() =~= s);
        assert forall|a: int, b: int|
            0 <= a < self.entries@.len() && 0 <= b < self.entries@.len() && a != b
            implies #[trigger] self.entries@[a].0@ != #[trigger] self.entries@[b].0@ by {
            if a < s.len() && b < s.len() {
                assert(s[a].0@ != s[b].0@);
            }
        }
    }

    /// The value stored under `key`, if any.
    pub fn get(&self, key: &str) -> (r: Option<&MetricValue>)
        requires
            self.wf(),
        ensures
            match r {
                Some(v) => self@.contains_key(key@) && self@[key@] == *v,
                None => !self@.contains_key(key@),
            },
    {
        let mut i: usize = 0;
        while i < self.entries.len()
            invariant
                keys_unique(self.entries@),
                i <= self.entries.len(),
                forall|j: int| 0 <= j < i ==> (#[trigger] self.entries@[j]).0@ != key@,
            decreases self.entries.len() - i,
        {
            if same_text(self.entries[i].0.as_str(), key) {
                proof {
                    lemma_present_key(self.entries@, i as int);
                }
                return Some(&self.entries[i].1);
            }
            i = i + 1;
        }
        proof {
            lemma_absent_key(self.entries@, key@);
        }
        None
    }

    pub fn contains_key(&self, key: &str) -> (r: bool)
        requires
            self.wf(),
        ensures
            r == self@.contains_key(key@),
    {
        self.get(key).is_some()
    }

    /// Number of entries.
    pub fn len(&self) -> (r: usize)
        ensures
            r == self.entry_seq().len(),
    {
        self.entries.len()
    }

    /// The entry at position `i`, in order of first insertion.
    pub fn entry(&self, i: usize) -> (r: &(String, MetricValue))
        requires
            i < self.entry_seq().len(),
        ensures
            *r == self.entry_seq()[i as int],
    {
        &self.entries[i]
    }
}

} // verus!
