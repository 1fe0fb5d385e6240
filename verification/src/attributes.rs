//! The hierarchical attribute store: a recursive string-keyed tree
//! whose values are either leaves (strings) or nested trees, with
//! dotted-path read and write access.
//!
//! Writing through a location that currently holds a leaf replaces
//! the leaf with a fresh subtree, and writing a leaf where a subtree
//! sits replaces the subtree: the store is last-write-wins.  (What a
//! conflicting write should do is left open by the store's spec;
//! this store picks replacement and states it in `spec_updated`.)

use vstd::prelude::*;

use crate::directives::AttributeDirective;
use crate::text::spec_split;
use crate::text::spec_trim;
use crate::text::split_char;
use crate::text::str_eq;
use crate::text::trim_str;

verus! {

/// A string-keyed tree of attributes.  Lookups return the first
/// entry under a key; writes replace that first entry or append a
/// fresh key, so a store built through `add_attribute` holds one
/// entry per key.
#[derive(Debug)]
pub struct Attributes(pub Vec<(String, AttributeValue)>);

/// One stored value: a nested tree or a leaf.
#[derive(Debug)]
pub enum AttributeValue {
    Attribute(Attributes),
    Value(String),
}

/// The first value stored under `key`, if any.
pub open spec fn spec_get(entries: Seq<(String, AttributeValue)>, key: Seq<char>) -> Option<
    AttributeValue,
>
    decreases entries.len(),
{
    if entries.len() == 0 {
        None
    } else if entries[0].0@ == key {
        Some(entries[0].1)
    } else {
        spec_get(entries.drop_first(), key)
    }
}

/// The value reached by descending through the path segments from
/// `i` on: nothing as soon as a segment is missing or a leaf stands
/// where a subtree is needed.
pub open spec fn spec_get_segs(
    entries: Seq<(String, AttributeValue)>,
    segs: Seq<Seq<char>>,
    i: int,
) -> Option<AttributeValue>
    decreases segs.len() - i,
{
    if i < 0 || i >= segs.len() {
        None
    } else {
        match spec_get(entries, segs[i]) {
            None => None,
            Some(v) => if i == segs.len() - 1 {
                Some(v)
            } else {
                match v {
                    AttributeValue::Attribute(inner) => spec_get_segs(inner.0@, segs, i + 1),
                    AttributeValue::Value(s) => None,
                }
            },
        }
    }
}

/// The value reached from `a` by a dotted path: the path is trimmed,
/// split on dots, and walked segment by segment.
pub open spec fn spec_get_path(a: Attributes, path: Seq<char>) -> Option<AttributeValue> {
    spec_get_segs(a.0@, spec_split(spec_trim(path), '.'), 0)
}

/// The entries of a value when it is treated as a subtree to descend
/// into: a leaf contributes nothing, as a write through it replaces
/// it wholesale.
pub open spec fn spec_node_entries(v: Option<AttributeValue>) -> Seq<(String, AttributeValue)> {
    match v {
        Some(AttributeValue::Attribute(a)) => a.0@,
        _ => Seq::<(String, AttributeValue)>::empty(),
    }
}

/// How one write relates the store before and after, level by
/// level.  At each level along the written path every other key
/// reads as before; the path's own key holds a subtree related
/// recursively, and at the end the written leaf.
pub open spec fn spec_updated(
    olde: Seq<(String, AttributeValue)>,
    newe: Seq<(String, AttributeValue)>,
    segs: Seq<Seq<char>>,
    i: int,
    key: Seq<char>,
    value: String,
) -> bool
    decreases segs.len() - i,
{
    if i >= segs.len() {
        &&& (forall|k: Seq<char>| k != key ==> spec_get(newe, k) == spec_get(olde, k))
        &&& spec_get(newe, key) == Some(AttributeValue::Value(value))
    } else {
        &&& (forall|k: Seq<char>| k != segs[i] ==> spec_get(newe, k) == spec_get(olde, k))
        &&& match spec_get(newe, segs[i]) {
            Some(AttributeValue::Attribute(inner)) => spec_updated(
                spec_node_entries(spec_get(olde, segs[i])),
                inner.0@,
                segs,
                i + 1,
                key,
                value,
            ),
            _ => false,
        }
    }
}

/// After a write, reading back the full written path yields exactly
/// the written leaf.
pub proof fn lemma_updated_get_segs(
    olde: Seq<(String, AttributeValue)>,
    newe: Seq<(String, AttributeValue)>,
    segs: Seq<Seq<char>>,
    i: int,
    key: Seq<char>,
    value: String,
)
    requires
        0 <= i <= segs.len(),
        spec_updated(olde, newe, segs, i, key, value),
    ensures
        spec_get_segs(newe, segs.push(key), i) == Some(AttributeValue::Value(value)),
    decreases segs.len() - i,
{
    let full = segs.push(key);
    if i >= segs.len() {
        assert(full[i] == key);
    } else {
        assert(full[i] == segs[i]);
        match spec_get(newe, segs[i]) {
            Some(AttributeValue::Attribute(inner)) => {
                lemma_updated_get_segs(
                    spec_node_entries(spec_get(olde, segs[i])),
                    inner.0@,
                    segs,
                    i + 1,
                    key,
                    value,
                );
            },
            _ => {
                assert(false);
            },
        }
    }
}

/// Keys untested by a prefix scan leave the lookup unchanged.
proof fn lemma_spec_get_skip(entries: Seq<(String, AttributeValue)>, key: Seq<char>, i: int)
    requires
        0 <= i <= entries.len(),
        forall|j: int| 0 <= j < i ==> entries[j].0@ != key,
    ensures
        spec_get(entries, key) == spec_get(entries.skip(i), key),
    decreases i,
{
    if i == 0 {
        assert(entries.skip(0) =~= entries);
    } else {
        let t = entries.drop_first();
        assert forall|j: int| 0 <= j < t.len() implies t[j] == entries[j + 1] by {}
        lemma_spec_get_skip(t, key, i - 1);
        assert(t.skip(i - 1) =~= entries.skip(i));
    }
}

/// Replacing the first entry holding a key rewrites that key's
/// lookup and no other.
proof fn lemma_spec_get_update(
    entries: Seq<(String, AttributeValue)>,
    j: int,
    p: (String, AttributeValue),
)
    requires
        0 <= j < entries.len(),
        p.0@ == entries[j].0@,
        forall|jj: int| 0 <= jj < j ==> entries[jj].0@ != p.0@,
    ensures
        spec_get(entries.update(j, p), p.0@) == Some(p.1),
        forall|k: Seq<char>|
            k != p.0@ ==> spec_get(entries.update(j, p), k) == spec_get(entries, k),
    decreases j,
{
    let u = entries.update(j, p);
    if j == 0 {
        assert(u.drop_first() =~= entries.drop_first());
        assert(u[0] == p);
        assert forall|k: Seq<char>| k != p.0@ implies spec_get(u, k) == spec_get(entries, k) by {
            assert(entries[0].0@ == p.0@);
        }
    } else {
        let t = entries.drop_first();
        assert forall|jj: int| 0 <= jj < t.len() implies t[jj] == entries[jj + 1] by {}
        lemma_spec_get_update(t, j - 1, p);
        assert(u.drop_first() =~= t.update(j - 1, p));
        assert(u[0] == entries[0]);
        assert(entries[0].0@ != p.0@);
        assert(spec_get(u, p.0@) == Some(p.1));
        assert forall|k: Seq<char>| k != p.0@ implies spec_get(u, k) == spec_get(entries, k) by {
            if entries[0].0@ != k {
                assert(spec_get(u.drop_first(), k) == spec_get(t, k));
            }
        }
    }
}

/// Appending an entry under a fresh key adds that key's lookup and
/// changes no other.
proof fn lemma_spec_get_push(
    entries: Seq<(String, AttributeValue)>,
    p: (String, AttributeValue),
)
    requires
        spec_get(entries, p.0@) is None,
    ensures
        spec_get(entries.push(p), p.0@) == Some(p.1),
        forall|k: Seq<char>| k != p.0@ ==> spec_get(entries.push(p), k) == spec_get(entries, k),
    decreases entries.len(),
{
    let u = entries.push(p);
    if entries.len() == 0 {
        assert(u.drop_first() =~= Seq::<(String, AttributeValue)>::empty());
        assert(u[0] == p);
        assert forall|k: Seq<char>| k != p.0@ implies spec_get(u, k) == spec_get(entries, k) by {
            assert(spec_get(u.drop_first(), k) is None);
        }
    } else {
        let t = entries.drop_first();
        assert(entries[0].0@ != p.0@);
        lemma_spec_get_push(t, p);
        assert(u.drop_first() =~= t.push(p));
        assert(u[0] == entries[0]);
        assert(spec_get(u, p.0@) == Some(p.1));
        assert forall|k: Seq<char>| k != p.0@ implies spec_get(u, k) == spec_get(entries, k) by {
            if entries[0].0@ == k {
                assert(spec_get(u, k) == Some(u[0].1));
                assert(spec_get(entries, k) == Some(entries[0].1));
            } else {
                assert(spec_get(u.drop_first(), k) == spec_get(t.push(p), k));
                assert(spec_get(entries, k) == spec_get(t, k));
            }
        }
    }
}

/// Index of the first entry stored under `key`, if any.
fn find_entry(entries: &Vec<(String, AttributeValue)>, key: &str) -> (r: Option<usize>)
    ensures
        match r {
            Some(j) => 0 <= j < entries@.len() && entries@[j as int].0@ == key@ && (forall|jj: int|
                0 <= jj < j ==> entries@[jj].0@ != key@),
            None => forall|jj: int| 0 <= jj < entries@.len() ==> entries@[jj].0@ != key@,
        },
{
    let n = entries.len();
    let mut i: usize = 0;
    while i < n
        invariant
            n == entries@.len(),
            0 <= i <= n,
            forall|jj: int| 0 <= jj < i ==> entries@[jj].0@ != key@,
        decreases n - i,
    {
        if str_eq(entries[i].0.as_str(), key) {
            return Some(i);
        }
        i = i + 1;
    }
    None
}

/// Stores `v` under `key` in the entry list: in place of the first
/// existing entry under that key, else appended.
fn insert_entry(entries: &mut Vec<(String, AttributeValue)>, key: String, v: AttributeValue)
    ensures
        spec_get(final(entries)@, key@) == Some(v),
        forall|k: Seq<char>|
            k != key@ ==> spec_get(final(entries)@, k) == spec_get(old(entries)@, k),
{
    let ghost prev = entries@;
    match find_entry(entries, key.as_str()) {
        Some(j) => {
            let kv = (key, v);
            proof {
                lemma_spec_get_update(prev, j as int, kv);
            }
            entries.remove(j);
            entries.insert(j, kv);
            proof {
                assert(entries@ =~= prev.update(j as int, kv));
            }
        },
        None => {
            let kv = (key, v);
            proof {
                lemma_spec_get_skip(prev, kv.0@, prev.len() as int);
                assert(prev.skip(prev.len() as int) =~= Seq::<(String, AttributeValue)>::empty());
                lemma_spec_get_push(prev, kv);
            }
            entries.push(kv);
        },
    }
}

/// Writes `Value(value)` under `key` at the node reached from `a`
/// through the path segments from `i` on, creating or replacing
/// nodes along the way exactly as `spec_updated` states.
fn set_segs(a: &mut Attributes, segs: &Vec<String>, i: usize, key: &String, value: &String)
    requires
        i <= segs@.len(),
    ensures
        spec_updated(old(a).0@, final(a).0@, segs.deep_view(), i as int, key@, *value),
    decreases segs@.len() - i,
{
    proof {
        assert(segs.deep_view().len() == segs@.len());
    }
    if i == segs.len() {
        insert_entry(&mut a.0, key.clone(), AttributeValue::Value(value.clone()));
    } else {
        proof {
            assert(segs.deep_view()[i as int] == segs@[i as int]@);
        }
        let ghost prev = a.0@;
        let s = &segs[i];
        match find_entry(&a.0, s.as_str()) {
            Some(j) => {
                proof {
                    lemma_spec_get_skip(prev, s@, j as int);
                }
                let kv = a.0.remove(j);
                let mut inner = match kv.1 {
                    AttributeValue::Attribute(inner) => inner,
                    AttributeValue::Value(leaf) => Attributes(Vec::new()),
                };
                set_segs(&mut inner, segs, i + 1, key, value);
                let np = (kv.0, AttributeValue::Attribute(inner));
                proof {
                    lemma_spec_get_update(prev, j as int, np);
                }
                a.0.insert(j, np);
                proof {
                    assert(a.0@ =~= prev.update(j as int, np));
                }
            },
            None => {
                let mut inner = Attributes(Vec::new());
                set_segs(&mut inner, segs, i + 1, key, value);
                let np = (s.clone(), AttributeValue::Attribute(inner));
                proof {
                    lemma_spec_get_skip(prev, np.0@, prev.len() as int);
                    assert(prev.skip(prev.len() as int) =~= Seq::<(
                        String,
                        AttributeValue,
                    )>::empty());
                    lemma_spec_get_push(prev, np);
                }
                a.0.push(np);
            },
        }
    }
}

impl Attributes {
    /// An empty store.
    pub fn new() -> (r: Self)
        ensures
            r.0@.len() == 0,
    {
        Attributes(Vec::new())
    }

    /// The value stored directly under `key` at this node.
    pub fn get(&self, key: &str) -> (r: Option<&AttributeValue>)
        ensures
            match r {
                Some(v) => spec_get(self.0@, key@) == Some(*v),
                None => spec_get(self.0@, key@) is None,
            },
    {
        match find_entry(&self.0, key) {
            Some(j) => {
                proof {
                    lemma_spec_get_skip(self.0@, key@, j as int);
                }
                let e = &self.0[j];
                Some(&e.1)
            },
            None => {
                proof {
                    lemma_spec_get_skip(self.0@, key@, self.0@.len() as int);
                    assert(self.0@.skip(self.0@.len() as int) =~= Seq::<(
                        String,
                        AttributeValue,
                    )>::empty());
                }
                None
            },
        }
    }

    /// The value reached by the dotted `path`, walked segment by
    /// segment; nothing as soon as a segment is missing or a leaf
    /// stands where a subtree is needed.
    pub fn get_path(&self, path: &str) -> (r: Option<&AttributeValue>)
        ensures
            match r {
                Some(v) => spec_get_path(*self, path@) == Some(*v),
                None => spec_get_path(*self, path@) is None,
            },
    {
        let segs = split_char(trim_str(path), '.');
        let ghost segsv = spec_split(spec_trim(path@), '.');
        proof {
            crate::text::lemma_spec_split_len(spec_trim(path@), '.');
        }
        let mut cur: &Attributes = self;
        let mut i: usize = 0;
        while i < segs.len()
            invariant
                segsv == spec_split(spec_trim(path@), '.'),
                segs.deep_view() == segsv,
                segsv.len() == segs@.len(),
                segsv.len() >= 1,
                0 <= i < segsv.len(),
                spec_get_segs(self.0@, segsv, 0) == spec_get_segs(cur.0@, segsv, i as int),
            decreases segs@.len() - i,
    {
            proof {
                assert(segs.deep_view()[i as int] == segs@[i as int]@);
            }
            match cur.get(segs[i].as_str()) {
                None => {
                    return None;
                },
                Some(v) => {
                    if i + 1 == segs.len() {
                        return Some(v);
                    }
                    match v {
                        AttributeValue::Attribute(inner) => {
                            cur = inner;
                        },
                        AttributeValue::Value(leaf) => {
                            return None;
                        },
                    }
                },
            }
            i = i + 1;
        }
        None
    }

    /// Applies an `@attr` directive: splits its path on dots and
    /// writes its value under its key at the node the path reaches,
    /// creating nodes as needed.  A path whose first segment is
    /// empty writes directly at the root.  The whole effect, frame
    /// included, is `spec_updated`.
    pub fn add_attribute(&mut self, attr: &AttributeDirective)
        ensures
            ({
                let segs = spec_split(attr.path@, '.');
                if segs[0].len() == 0 {
                    spec_updated(
                        old(self).0@,
                        final(self).0@,
                        Seq::<Seq<char>>::empty(),
                        0,
                        attr.key@,
                        attr.value,
                    )
                } else {
                    spec_updated(old(self).0@, final(self).0@, segs, 0, attr.key@, attr.value)
                }
            }),
    {
        let segs = split_char(attr.path.as_str(), '.');
        proof {
            crate::text::lemma_spec_split_len(attr.path@, '.');
            assert(segs.deep_view()[0] == segs@[0]@);
        }
        if segs[0].as_str().unicode_len() == 0 {
            let empty_segs: Vec<String> = Vec::new();
            proof {
                assert(empty_segs.deep_view() =~= Seq::<Seq<char>>::empty());
            }
            set_segs(self, &empty_segs, 0, &attr.key, &attr.value);
        } else {
            set_segs(self, &segs, 0, &attr.key, &attr.value);
        }
    }
}

impl Default for Attributes {
    /// An empty store.
    fn default() -> (r: Self)
        ensures
            r.0@.len() == 0,
    {
        Attributes(Vec::new())
    }
}

impl AttributeValue {
    /// Whether this value is a subtree.
    pub fn is_attribute(&self) -> (r: bool)
        ensures
            r == (self is Attribute),
    {
        match self {
            AttributeValue::Attribute(a) => true,
            AttributeValue::Value(v) => false,
        }
    }

    /// This value as a subtree, if it is one.
    pub fn as_attribute(&self) -> (r: Option<&Attributes>)
        ensures
            match r {
                Some(a) => *self is Attribute && *a == self->Attribute_0,
                None => !(*self is Attribute),
            },
    {
        match self {
            AttributeValue::Attribute(a) => Some(a),
            AttributeValue::Value(v) => None,
        }
    }

    /// This value as a subtree to edit, if it is one.
    pub fn as_attribute_mut(&mut self) -> (r: Option<&mut Attributes>)
        ensures
            match r {
                Some(m) => *old(self) is Attribute && *m == old(self)->Attribute_0 && *final(self)
                    == AttributeValue::Attribute(*final(m)),
                None => !(*old(self) is Attribute) && *final(self) == *old(self),
            },
    {
        match self {
            AttributeValue::Attribute(a) => Some(a),
            AttributeValue::Value(v) => None,
        }
    }

    /// This value as a leaf string, if it is one.
    pub fn as_value(&self) -> (r: Option<&str>)
        ensures
            match r {
                Some(s) => *self is Value && s@ == self->Value_0@,
                None => !(*self is Value),
            },
    {
        match self {
            AttributeValue::Attribute(a) => None,
            AttributeValue::Value(v) => Some(v.as_str()),
        }
    }
}

} // verus!
