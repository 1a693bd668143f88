//! A map from names to values kept as a vector sorted by name, each name at most
//! once. Walking it visits the names in order, which is the order the sweep reports
//! in.
use vstd::prelude::*;
use crate::archive::order::{lemma_text_less_transitive, lemma_text_less_trichotomy, str_less, text_less};
use crate::text::str_eq;

verus! {

/// Whether the names of `s` strictly ascend, so that none occurs twice.
pub open spec fn names_ascend<V>(s: Seq<(Seq<char>, V)>) -> bool {
    forall|i: int, j: int| 0 <= i < j < s.len() ==> text_less(#[trigger] s[i].0, #[trigger] s[j].0)
}

/// `s` with `value` stored under `name`: the entry of that name replaced where there
/// is one, else a new entry at the place the order gives it.
pub open spec fn put<V>(s: Seq<(Seq<char>, V)>, name: Seq<char>, value: V) -> Seq<(Seq<char>, V)>
    decreases s.len(),
{
    if s.len() == 0 {
        seq![(name, value)]
    } else if s[0].0 == name {
        seq![(name, value)] + s.drop_first()
    } else if text_less(name, s[0].0) {
        seq![(name, value)] + s
    } else {
        seq![s[0]] + put(s.drop_first(), name, value)
    }
}

/// The map that storing each of `items` in turn, into an empty map, builds.
pub open spec fn put_all<V>(items: Seq<(Seq<char>, V)>) -> Seq<(Seq<char>, V)>
    decreases items.len(),
{
    if items.len() == 0 {
        Seq::empty()
    } else {
        put(put_all(items.drop_last()), items.last().0, items.last().1)
    }
}

/// The value stored under `name` in `s`, if any.
pub open spec fn lookup<V>(s: Seq<(Seq<char>, V)>, name: Seq<char>) -> Option<V>
    decreases s.len(),
{
    if s.len() == 0 {
        None
    } else if s[0].0 == name {
        Some(s[0].1)
    } else {
        lookup(s.drop_first(), name)
    }
}

/// `put` adds one entry for a name not yet stored, and none for one that is.
pub proof fn lemma_put_len<V>(s: Seq<(Seq<char>, V)>, name: Seq<char>, value: V)
    requires
        names_ascend(s),
    ensures
        put(s, name, value).len() == if lookup(s, name) is Some { s.len() } else { s.len() + 1 },
    decreases s.len(),
{
    if s.len() > 0 && s[0].0 != name {
        if text_less(name, s[0].0) {
            assert forall|i: int| 0 <= i < s.len() implies text_less(name, #[trigger] s[i].0) || s[i].0 != name by {
                if i > 0 {
                    lemma_text_less_transitive(name, s[0].0, s[i].0);
                }
            }
            lemma_lookup_absent(s, name, name);
        } else {
            let rest = s.drop_first();
            assert(names_ascend(rest)) by {
                assert forall|i: int, j: int| 0 <= i < j < rest.len() implies text_less(#[trigger] rest[i].0, #[trigger] rest[j].0) by {
                    assert(rest[i] == s[i + 1] && rest[j] == s[j + 1]);
                }
            }
            lemma_put_len(rest, name, value);
        }
    }
}

/// After `put`, the name holds the value stored, and every other name what it held.
pub proof fn lemma_lookup_put<V>(s: Seq<(Seq<char>, V)>, name: Seq<char>, value: V, other: Seq<char>)
    ensures
        lookup(put(s, name, value), name) == Some(value),
        other != name ==> lookup(put(s, name, value), other) == lookup(s, other),
    decreases s.len(),
{
    let t = put(s, name, value);
    if s.len() == 0 {
        assert(t[0] == (name, value));
        assert(t.drop_first() =~= Seq::<(Seq<char>, V)>::empty());
        assert(other != name ==> lookup(t, other) == lookup(s, other));
    } else if s[0].0 == name {
        assert(t[0] == (name, value));
        assert(t.drop_first() =~= s.drop_first());
        assert(other != name ==> lookup(t, other) == lookup(t.drop_first(), other));
        assert(other != name ==> lookup(s, other) == lookup(s.drop_first(), other));
    } else if text_less(name, s[0].0) {
        assert(t[0] == (name, value));
        assert(t.drop_first() =~= s);
        assert(other != name ==> lookup(t, other) == lookup(s, other));
    } else {
        lemma_lookup_put(s.drop_first(), name, value, other);
        assert(t[0] == s[0]);
        assert(t.drop_first() =~= put(s.drop_first(), name, value));
        assert(other != name ==> lookup(t, other) == lookup(s, other));
    }
}

/// After `without`, the name holds nothing, and every other name what it held,
/// provided each name occurs once.
pub proof fn lemma_lookup_without<V>(s: Seq<(Seq<char>, V)>, name: Seq<char>, other: Seq<char>)
    requires
        names_ascend(s),
    ensures
        lookup(without(s, name), name) is None,
        other != name ==> lookup(without(s, name), other) == lookup(s, other),
    decreases s.len(),
{
    if s.len() > 0 {
        let rest = s.drop_first();
        assert(names_ascend(rest)) by {
            assert forall|i: int, j: int| 0 <= i < j < rest.len() implies text_less(#[trigger] rest[i].0, #[trigger] rest[j].0) by {
                assert(rest[i] == s[i + 1] && rest[j] == s[j + 1]);
            }
        }
        if s[0].0 == name {
            lemma_lookup_absent(rest, name, s[0].0);
        } else {
            lemma_lookup_without(rest, name, other);
            assert((seq![s[0]] + without(rest, name)).drop_first() =~= without(rest, name));
        }
    }
}

/// A name that sorts before every name of an ascending map is not in it... nor is the
/// first name of a longer map in what follows it.
proof fn lemma_lookup_absent<V>(s: Seq<(Seq<char>, V)>, name: Seq<char>, first: Seq<char>)
    requires
        names_ascend(s),
        first == name,
        forall|i: int| 0 <= i < s.len() ==> text_less(first, #[trigger] s[i].0) || s[i].0 != name,
    ensures
        lookup(s, name) is None,
    decreases s.len(),
{
    if s.len() > 0 {
        if s[0].0 == name {
            assert(text_less(first, s[0].0));
            lemma_text_less_trichotomy(name, name);
        }
        let rest = s.drop_first();
        assert(names_ascend(rest)) by {
            assert forall|i: int, j: int| 0 <= i < j < rest.len() implies text_less(#[trigger] rest[i].0, #[trigger] rest[j].0) by {
                assert(rest[i] == s[i + 1] && rest[j] == s[j + 1]);
            }
        }
        assert forall|i: int| 0 <= i < rest.len() implies text_less(first, #[trigger] rest[i].0) || rest[i].0 != name by {
            assert(rest[i] == s[i + 1]);
        }
        lemma_lookup_absent(rest, name, first);
    }
}

/// `s` without the entry of `name`.
pub open spec fn without<V>(s: Seq<(Seq<char>, V)>, name: Seq<char>) -> Seq<(Seq<char>, V)>
    decreases s.len(),
{
    if s.len() == 0 {
        s
    } else if s[0].0 == name {
        s.drop_first()
    } else {
        seq![s[0]] + without(s.drop_first(), name)
    }
}

/// Where `without` takes its entry out, once the entries before `p` are known not to
/// be it.
proof fn lemma_without_at<V>(s: Seq<(Seq<char>, V)>, name: Seq<char>, p: int)
    requires
        0 <= p <= s.len(),
        forall|i: int| 0 <= i < p ==> #[trigger] s[i].0 != name,
    ensures
        p < s.len() && s[p].0 == name ==> without(s, name) == s.remove(p),
        p == s.len() ==> without(s, name) == s,
    decreases p,
{
    if p == 0 {
        if s.len() == 0 {
        } else if s[0].0 == name {
            assert(s.drop_first() =~= s.remove(0));
        }
    } else {
        let t = s.drop_first();
        assert forall|i: int| 0 <= i < p - 1 implies #[trigger] t[i].0 != name by {
            assert(t[i] == s[i + 1]);
        }
        lemma_without_at(t, name, p - 1);
        if p < s.len() && s[p].0 == name {
            assert(without(s, name) =~= s.remove(p));
        } else if p == s.len() {
            assert(without(s, name) =~= s);
        }
    }
}

/// Names mapped to values, in name order.
pub struct NameMap<V> {
    pub entries: Vec<(String, V)>,
}

impl<V> View for NameMap<V> {
    type V = Seq<(Seq<char>, V)>;

    open spec fn view(&self) -> Seq<(Seq<char>, V)> {
        Seq::new(self.entries@.len(), |i: int| (self.entries@[i].0@, self.entries@[i].1))
    }
}

/// Where `put` lands: after every entry whose name sorts before `name`.
proof fn lemma_put_at<V>(s: Seq<(Seq<char>, V)>, name: Seq<char>, value: V, p: int)
    requires
        names_ascend(s),
        0 <= p <= s.len(),
        forall|i: int| 0 <= i < p ==> text_less(#[trigger] s[i].0, name),
        p < s.len() ==> !text_less(s[p].0, name),
    ensures
        p < s.len() && s[p].0 == name ==> put(s, name, value) == s.update(p, (name, value)),
        !(p < s.len() && s[p].0 == name) ==> put(s, name, value) == s.insert(p, (name, value)),
    decreases p,
{
    if p == 0 {
        if s.len() > 0 {
            lemma_text_less_trichotomy(s[0].0, name);
            if s[0].0 == name {
                assert(put(s, name, value) =~= s.update(0, (name, value)));
            } else {
                assert(put(s, name, value) =~= s.insert(0, (name, value)));
            }
        } else {
            assert(put(s, name, value) =~= s.insert(0, (name, value)));
        }
    } else {
        let t = s.drop_first();
        assert(text_less(s[0].0, name));
        lemma_text_less_trichotomy(s[0].0, name);
        assert(s[0].0 != name) by {
            lemma_text_less_trichotomy(name, name);
        }
        assert(names_ascend(t)) by {
            assert forall|i: int, j: int| 0 <= i < j < t.len() implies text_less(#[trigger] t[i].0, #[trigger] t[j].0) by {
                assert(t[i] == s[i + 1] && t[j] == s[j + 1]);
            }
        }
        assert forall|i: int| 0 <= i < p - 1 implies text_less(#[trigger] t[i].0, name) by {
            assert(t[i] == s[i + 1]);
        }
        lemma_put_at(t, name, value, p - 1);
        if p < s.len() && s[p].0 == name {
            assert(put(s, name, value) =~= s.update(p, (name, value)));
        } else {
            assert(put(s, name, value) =~= s.insert(p, (name, value)));
        }
    }
}

/// What `lookup` finds in an ascending map: the entry of that name, if any.
proof fn lemma_lookup_at<V>(s: Seq<(Seq<char>, V)>, name: Seq<char>, p: int)
    requires
        0 <= p <= s.len(),
        forall|i: int| 0 <= i < p ==> #[trigger] s[i].0 != name,
    ensures
        p < s.len() && s[p].0 == name ==> lookup(s, name) == Some(s[p].1),
        p == s.len() ==> lookup(s, name) is None,
    decreases p,
{
    if p > 0 {
        let t = s.drop_first();
        assert forall|i: int| 0 <= i < p - 1 implies #[trigger] t[i].0 != name by {
            assert(t[i] == s[i + 1]);
        }
        lemma_lookup_at(t, name, p - 1);
    }
}

/// What `lookup` finds at the place an ascending map's order gives a name: the entry
/// there when it holds that name, and nothing otherwise.
proof fn lemma_lookup_position<V>(s: Seq<(Seq<char>, V)>, name: Seq<char>, p: int)
    requires
        names_ascend(s),
        0 <= p <= s.len(),
        forall|i: int| 0 <= i < p ==> text_less(#[trigger] s[i].0, name),
        p < s.len() ==> !text_less(s[p].0, name),
    ensures
        lookup(s, name) == if p < s.len() && s[p].0 == name { Some(s[p].1) } else { None },
{
    assert forall|i: int| 0 <= i < p implies #[trigger] s[i].0 != name by {
        lemma_text_less_trichotomy(name, name);
    }
    if p < s.len() && s[p].0 == name {
        lemma_lookup_at(s, name, p);
    } else {
        if p < s.len() {
            lemma_text_less_trichotomy(s[p].0, name);
        }
        assert forall|i: int| 0 <= i < s.len() implies text_less(name, #[trigger] s[i].0) || s[i].0 != name by {
            if i > p {
                lemma_text_less_transitive(name, s[p].0, s[i].0);
            }
        }
        lemma_lookup_absent(s, name, name);
    }
}

impl<V> NameMap<V> {
    /// Whether the names ascend.
    pub open spec fn wf(&self) -> bool {
        names_ascend(self@)
    }

    /// An empty map.
    pub fn new() -> (m: Self)
        ensures
            m.wf(),
            m@ == Seq::<(Seq<char>, V)>::empty(),
    {
        let m = NameMap { entries: Vec::new() };
        assert(m@ =~= Seq::<(Seq<char>, V)>::empty());
        m
    }

    /// How many names the map holds.
    pub fn len(&self) -> (n: usize)
        ensures
            n == self@.len(),
    {
        self.entries.len()
    }

    /// Where the order puts `name`: every name before it sorts first, and none from
    /// it on does. Found by halving, so a large map costs a few comparisons.
    fn position(&self, name: &str) -> (p: usize)
        requires
            self.wf(),
        ensures
            p <= self@.len(),
            forall|i: int| 0 <= i < p ==> text_less(#[trigger] self@[i].0, name@),
            forall|i: int| p <= i < self@.len() ==> !text_less(#[trigger] self@[i].0, name@),
    {
        let ghost s = self@;
        let mut lo: usize = 0;
        let mut hi: usize = self.entries.len();
        while lo < hi
            invariant
                s == self@,
                names_ascend(s),
                lo <= hi <= s.len(),
                forall|i: int| 0 <= i < lo ==> text_less(#[trigger] s[i].0, name@),
                forall|i: int| hi <= i < s.len() ==> !text_less(#[trigger] s[i].0, name@),
            decreases hi - lo,
        {
            let mid = lo + (hi - lo) / 2;
            if str_less(self.entries[mid].0.as_str(), name) {
                proof {
                    assert forall|i: int| 0 <= i < mid + 1 implies text_less(#[trigger] s[i].0, name@) by {
                        if i < mid {
                            lemma_text_less_transitive(s[i].0, s[mid as int].0, name@);
                        }
                    }
                }
                lo = mid + 1;
            } else {
                proof {
                    assert forall|i: int| mid <= i < s.len() implies !text_less(#[trigger] s[i].0, name@) by {
                        if i > mid && text_less(s[i].0, name@) {
                            lemma_text_less_transitive(s[mid as int].0, s[i].0, name@);
                        }
                    }
                }
                hi = mid;
            }
        }
        lo
    }

    /// Store `value` under `name`, replacing what was stored there.
    pub fn insert(&mut self, name: String, value: V)
        requires
            old(self).wf(),
        ensures
            final(self).wf(),
            final(self)@ == put(old(self)@, name@, value),
    {
        let ghost s = self@;
        let p = self.position(name.as_str());
        proof {
            lemma_put_at(s, name@, value, p as int);
        }
        if p < self.entries.len() && str_eq(self.entries[p].0.as_str(), name.as_str()) {
            self.entries.set(p, (name, value));
            proof {
                assert(self@ =~= s.update(p as int, (name@, value)));
                assert(self@ =~= s.update(p as int, (s[p as int].0, value)));
            }
        } else {
            proof {
                if p < s.len() {
                    lemma_text_less_trichotomy(s[p as int].0, name@);
                    assert(text_less(name@, s[p as int].0));
                    assert forall|j: int| p <= j < s.len() implies text_less(name@, #[trigger] s[j].0) by {
                        if j > p {
                            lemma_text_less_transitive(name@, s[p as int].0, s[j].0);
                        }
                    }
                }
            }
            self.entries.insert(p, (name, value));
            proof {
                let t = s.insert(p as int, (name@, value));
                assert(self@ =~= t);
                assert forall|i: int, j: int| 0 <= i < j < t.len() implies text_less(#[trigger] t[i].0, #[trigger] t[j].0) by {
                    if j < p {
                    } else if j == p {
                    } else if i < p {
                        lemma_text_less_transitive(s[i].0, name@, s[j - 1].0);
                    } else if i == p {
                    } else {
                        assert(t[i] == s[i - 1] && t[j] == s[j - 1]);
                    }
                }
            }
        }
    }

    /// The value stored under `name`, if any.
    pub fn get(&self, name: &str) -> (r: Option<V>)
        where V: Copy,
        requires
            self.wf(),
        ensures
            r == lookup(self@, name@),
    {
        let ghost s = self@;
        let p = self.position(name);
        proof {
            lemma_lookup_position(s, name@, p as int);
        }
        if p < self.entries.len() && str_eq(self.entries[p].0.as_str(), name) {
            Some(self.entries[p].1)
        } else {
            None
        }
    }

    /// Forget what is stored under `name`, if anything is.
    pub fn remove(&mut self, name: &str)
        requires
            old(self).wf(),
        ensures
            final(self).wf(),
            final(self)@ == without(old(self)@, name@),
    {
        let ghost s = self@;
        let mut p: usize = 0;
        while p < self.entries.len()
            invariant
                s == old(self)@,
                s == self@,
                names_ascend(s),
                p <= s.len(),
                forall|i: int| 0 <= i < p ==> #[trigger] s[i].0 != name@,
            decreases s.len() - p,
        {
            if str_eq(self.entries[p].0.as_str(), name) {
                proof {
                    assert(s[p as int].0 == name@);
                    lemma_without_at(s, name@, p as int);
                }
                self.entries.remove(p);
                proof {
                    assert(self@ =~= s.remove(p as int));
                    let t = s.remove(p as int);
                    assert forall|i: int, j: int| 0 <= i < j < t.len() implies text_less(#[trigger] t[i].0, #[trigger] t[j].0) by {
                        let a = if i < p { i } else { i + 1 };
                        let b = if j < p { j } else { j + 1 };
                        assert(t[i] == s[a] && t[j] == s[b]);
                    }
                }
                return;
            }
            p = p + 1;
        }
        proof {
            lemma_without_at(s, name@, p as int);
        }
    }

    /// Whether `name` is stored.
    pub fn contains(&self, name: &str) -> (r: bool)
        requires
            self.wf(),
        ensures
            r == lookup(self@, name@) is Some,
    {
        let ghost s = self@;
        let p = self.position(name);
        proof {
            lemma_lookup_position(s, name@, p as int);
        }
        p < self.entries.len() && str_eq(self.entries[p].0.as_str(), name)
    }
}

} // verus!
