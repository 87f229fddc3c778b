//! The `dam.toml` document as the library edits it: tables whose keys are
//! kept in document order, each key once, holding texts, flags, lists and
//! tables. Values of any other kind (numbers, dates) are carried through by
//! the handle their reader gave them; the library never looks inside them.
use vstd::prelude::*;
use crate::text::{owned, str_eq, string_views};

verus! {

/// A value in a `dam.toml` document.
pub enum TomlValue {
    Text(String),
    Flag(bool),
    List(Vec<TomlValue>),
    Table(TomlTable),
    /// A number or a date, by the handle of whoever read it.
    Other(u64),
}

/// A table: its entries in document order, no key twice.
pub struct TomlTable {
    entries: Vec<(String, TomlValue)>,
}

/// The map a sequence of entries describes (a later entry wins).
pub open spec fn entries_map(s: Seq<(String, TomlValue)>) -> Map<Seq<char>, TomlValue>
    decreases s.len(),
{
    if s.len() == 0 {
        Map::empty()
    } else {
        entries_map(s.drop_last()).insert(s.last().0@, s.last().1)
    }
}

/// The keys of a sequence of entries, in order.
pub open spec fn entry_keys(s: Seq<(String, TomlValue)>) -> Seq<Seq<char>> {
    s.map_values(|e: (String, TomlValue)| e.0@)
}

/// No key occurs twice.
pub open spec fn keys_distinct(s: Seq<(String, TomlValue)>) -> bool {
    forall|i: int, j: int| 0 <= i < j < s.len() ==> s[i].0@ != s[j].0@
}

proof fn lemma_map_dom(s: Seq<(String, TomlValue)>)
    ensures
        forall|k: Seq<char>|
            entries_map(s).contains_key(k) <==> exists|i: int| 0 <= i < s.len() && s[i].0@ == k,
    decreases s.len(),
{
    if s.len() > 0 {
        let d = s.drop_last();
        lemma_map_dom(d);
        assert forall|k: Seq<char>| entries_map(s).contains_key(k) implies exists|i: int|
            0 <= i < s.len() && s[i].0@ == k by {
            if k != s.last().0@ {
                assert(entries_map(d).contains_key(k));
                let i = choose|i: int| 0 <= i < d.len() && d[i].0@ == k;
                assert(s[i] == d[i]);
                assert(0 <= i < s.len() && s[i].0@ == k);
            } else {
                assert(s[s.len() - 1].0@ == k);
            }
        }
        assert forall|k: Seq<char>| (exists|i: int| 0 <= i < s.len() && s[i].0@ == k) implies entries_map(
            s,
        ).contains_key(k) by {
            let i = choose|i: int| 0 <= i < s.len() && s[i].0@ == k;
            if i < s.len() - 1 {
                assert(d[i] == s[i]);
                assert(0 <= i < d.len() && d[i].0@ == k);
                assert(entries_map(d).contains_key(k));
            }
        }
    }
}

proof fn lemma_map_at(s: Seq<(String, TomlValue)>, i: int)
    requires
        keys_distinct(s),
        0 <= i < s.len(),
    ensures
        entries_map(s).contains_key(s[i].0@),
        entries_map(s)[s[i].0@] == s[i].1,
    decreases s.len(),
{
    let d = s.drop_last();
    if i < s.len() - 1 {
        assert(d[i] == s[i]);
        lemma_map_at(d, i);
    }
}

proof fn lemma_map_update(s: Seq<(String, TomlValue)>, i: int, v: TomlValue)
    requires
        keys_distinct(s),
        0 <= i < s.len(),
    ensures
        entries_map(s.update(i, (s[i].0, v))) =~= entries_map(s).insert(s[i].0@, v),
    decreases s.len(),
{
    let t = s.update(i, (s[i].0, v));
    let d = s.drop_last();
    if i == s.len() - 1 {
        assert(t.drop_last() =~= d);
    } else {
        assert(t.drop_last() =~= d.update(i, (d[i].0, v)));
        lemma_map_update(d, i, v);
        assert(s.last().0@ != s[i].0@);
    }
}

proof fn lemma_map_remove(s: Seq<(String, TomlValue)>, i: int)
    requires
        keys_distinct(s),
        0 <= i < s.len(),
    ensures
        entries_map(s.remove(i)) =~= entries_map(s).remove(s[i].0@),
    decreases s.len(),
{
    let d = s.drop_last();
    if i == s.len() - 1 {
        assert(s.remove(i) =~= d);
        lemma_map_dom(d);
        assert(!entries_map(d).contains_key(s[i].0@));
    } else {
        assert(s.remove(i).drop_last() =~= d.remove(i));
        lemma_map_remove(d, i);
        assert(s.last().0@ != s[i].0@);
        assert(s.remove(i).last() == s.last());
    }
}

proof fn lemma_keys_cover(s: Seq<(String, TomlValue)>)
    requires
        keys_distinct(s),
    ensures
        entry_keys(s).no_duplicates(),
        forall|k: Seq<char>| entries_map(s).contains_key(k) <==> entry_keys(s).contains(k),
        entries_map(s).dom().finite(),
        entries_map(s).len() == s.len(),
    decreases s.len(),
{
    lemma_map_dom(s);
    let ks = entry_keys(s);
    assert forall|k: Seq<char>| entries_map(s).contains_key(k) <==> ks.contains(k) by {
        if entries_map(s).contains_key(k) {
            let i = choose|i: int| 0 <= i < s.len() && s[i].0@ == k;
            assert(ks[i] == k);
        }
        if ks.contains(k) {
            let i = choose|i: int| 0 <= i < ks.len() && ks[i] == k;
            assert(0 <= i < s.len() && s[i].0@ == k);
        }
    }
    if s.len() > 0 {
        let d = s.drop_last();
        lemma_keys_cover(d);
        lemma_map_dom(d);
        assert(!entries_map(d).contains_key(s.last().0@)) by {
            if entries_map(d).contains_key(s.last().0@) {
                let i = choose|i: int| 0 <= i < d.len() && d[i].0@ == s.last().0@;
                assert(s[i] == d[i]);
            }
        }
    }
}

/// `v` is the text `s`.
pub open spec fn is_text(v: TomlValue, s: Seq<char>) -> bool {
    v matches TomlValue::Text(x) && x@ == s
}

/// `v` is the list of the texts `ss`, in order.
pub open spec fn is_text_list(v: TomlValue, ss: Seq<Seq<char>>) -> bool {
    v matches TomlValue::List(items) && items@.len() == ss.len() && forall|i: int|
        0 <= i < ss.len() ==> is_text(#[trigger] items@[i], ss[i])
}

/// `key` has the same value in `after` as in `before`, or none in both.
pub open spec fn kept(
    before: Map<Seq<char>, TomlValue>,
    after: Map<Seq<char>, TomlValue>,
    key: Seq<char>,
) -> bool {
    &&& after.contains_key(key) == before.contains_key(key)
    &&& before.contains_key(key) ==> after[key] == before[key]
}

/// `key` keeps its value from `before`, or is the text `s` when it had none
/// (what `entry(key).or_insert(s)` leaves).
pub open spec fn text_or_kept(
    before: Map<Seq<char>, TomlValue>,
    after: Map<Seq<char>, TomlValue>,
    key: Seq<char>,
    s: Seq<char>,
) -> bool {
    &&& after.contains_key(key)
    &&& if before.contains_key(key) {
        after[key] == before[key]
    } else {
        is_text(after[key], s)
    }
}

/// `after` differs from `before` at most under `key`, where it holds a
/// table.
pub open spec fn edits_child(
    before: Map<Seq<char>, TomlValue>,
    after: Map<Seq<char>, TomlValue>,
    key: Seq<char>,
) -> bool {
    &&& after.contains_key(key)
    &&& after[key] is Table
    &&& after.remove(key) == before.remove(key)
}

/// The value under `key` is a table, or there is none.
pub open spec fn table_or_absent(m: Map<Seq<char>, TomlValue>, key: Seq<char>) -> bool {
    m.contains_key(key) ==> m[key] is Table
}

/// A list value of the texts in `items`.
pub fn text_list(items: &Vec<String>) -> (r: TomlValue)
    ensures
        is_text_list(r, string_views(items@)),
{
    let mut out: Vec<TomlValue> = Vec::new();
    let mut i: usize = 0;
    while i < items.len()
        invariant
            0 <= i <= items@.len(),
            out@.len() == i,
            forall|j: int| 0 <= j < i ==> is_text(#[trigger] out@[j], items@[j]@),
        decreases items@.len() - i,
    {
        out.push(TomlValue::Text(items[i].clone()));
        i = i + 1;
    }
    TomlValue::List(out)
}

/// The view of an optional text.
pub open spec fn opt_view(o: Option<String>) -> Option<Seq<char>> {
    match o {
        Some(s) => Some(s@),
        None => None,
    }
}

/// The text under `key`, when that is what it holds.
pub open spec fn text_at(m: Map<Seq<char>, TomlValue>, key: Seq<char>) -> Option<Seq<char>> {
    if m.contains_key(key) {
        match m[key] {
            TomlValue::Text(s) => Some(s@),
            _ => None,
        }
    } else {
        None
    }
}

/// The flag under `key`, when that is what it holds.
pub open spec fn flag_at(m: Map<Seq<char>, TomlValue>, key: Seq<char>) -> Option<bool> {
    if m.contains_key(key) {
        match m[key] {
            TomlValue::Flag(b) => Some(b),
            _ => None,
        }
    } else {
        None
    }
}

/// The texts among `items`, in order.
pub open spec fn list_texts(items: Seq<TomlValue>) -> Seq<Seq<char>>
    decreases items.len(),
{
    if items.len() == 0 {
        Seq::empty()
    } else {
        let rest = list_texts(items.drop_last());
        match items.last() {
            TomlValue::Text(s) => rest.push(s@),
            _ => rest,
        }
    }
}

/// The texts in the list under `key`, when it holds a list.
pub open spec fn texts_at(m: Map<Seq<char>, TomlValue>, key: Seq<char>) -> Option<
    Seq<Seq<char>>,
> {
    if m.contains_key(key) {
        match m[key] {
            TomlValue::List(items) => Some(list_texts(items@)),
            _ => None,
        }
    } else {
        None
    }
}

/// The texts among `items`, in order.
pub fn texts_of(items: &Vec<TomlValue>) -> (r: Vec<String>)
    ensures
        string_views(r@) == list_texts(items@),
{
    let mut out: Vec<String> = Vec::new();
    let mut i: usize = 0;
    while i < items.len()
        invariant
            0 <= i <= items@.len(),
            string_views(out@) == list_texts(items@.take(i as int)),
        decreases items@.len() - i,
    {
        match &items[i] {
            TomlValue::Text(x) => {
                out.push(x.clone());
            },
            _ => {},
        }
        proof {
            assert(items@.take(i + 1).drop_last() =~= items@.take(i as int));
            assert(string_views(out@) =~= list_texts(items@.take(i + 1)));
        }
        i = i + 1;
    }
    assert(items@.take(i as int) =~= items@);
    out
}

/// Editing the table under `key` keeps every other key.
pub proof fn lemma_edits_child_kept(
    before: Map<Seq<char>, TomlValue>,
    after: Map<Seq<char>, TomlValue>,
    key: Seq<char>,
)
    requires
        edits_child(before, after, key),
    ensures
        forall|k: Seq<char>| k != key ==> #[trigger] kept(before, after, k),
{
    assert forall|k: Seq<char>| k != key implies #[trigger] kept(before, after, k) by {
        assert(after.remove(key).contains_key(k) == after.contains_key(k));
        assert(before.remove(key).contains_key(k) == before.contains_key(k));
        if before.contains_key(k) {
            assert(after.remove(key)[k] == after[k]);
            assert(before.remove(key)[k] == before[k]);
        }
    }
}

/// Setting `key` keeps every other key.
pub proof fn lemma_insert_kept(m: Map<Seq<char>, TomlValue>, key: Seq<char>, v: TomlValue)
    ensures
        forall|k: Seq<char>| k != key ==> #[trigger] kept(m, m.insert(key, v), k),
{
}

/// The table under `key`, as a map; empty when there is none.
pub open spec fn child_map(m: Map<Seq<char>, TomlValue>, key: Seq<char>) -> Map<
    Seq<char>,
    TomlValue,
> {
    if m.contains_key(key) {
        match m[key] {
            TomlValue::Table(t) => t@,
            _ => Map::empty(),
        }
    } else {
        Map::empty()
    }
}

/// The keys of the table under `key`, in document order.
pub open spec fn child_keys(m: Map<Seq<char>, TomlValue>, key: Seq<char>) -> Seq<Seq<char>> {
    if m.contains_key(key) {
        match m[key] {
            TomlValue::Table(t) => t.key_list(),
            _ => Seq::empty(),
        }
    } else {
        Seq::empty()
    }
}

/// The position of `key` among `entries`.
fn position_in(entries: &Vec<(String, TomlValue)>, key: &str) -> (r: Option<usize>)
    ensures
        match r {
            Some(i) => i < entries@.len() && entries@[i as int].0@ == key@,
            None => forall|i: int| 0 <= i < entries@.len() ==> entries@[i].0@ != key@,
        },
{
    let mut i: usize = 0;
    while i < entries.len()
        invariant
            0 <= i <= entries@.len(),
            forall|j: int| 0 <= j < i ==> entries@[j].0@ != key@,
        decreases entries@.len() - i,
    {
        if str_eq(entries[i].0.as_str(), key) {
            return Some(i);
        }
        i = i + 1;
    }
    None
}

impl TomlTable {
    #[verifier::type_invariant]
    closed spec fn distinct(self) -> bool {
        keys_distinct(self.entries@)
    }

    /// The keys in document order.
    pub closed spec fn key_list(self) -> Seq<Seq<char>> {
        entry_keys(self.entries@)
    }

    /// An empty table.
    pub fn new() -> (t: TomlTable)
        ensures
            t@ == Map::<Seq<char>, TomlValue>::empty(),
            t.key_list() == Seq::<Seq<char>>::empty(),
    {
        let t = TomlTable { entries: Vec::new() };
        assert(t.key_list() =~= Seq::<Seq<char>>::empty());
        t
    }

    /// The value under `key`.
    pub fn get(&self, key: &str) -> (r: Option<&TomlValue>)
        ensures
            match r {
                Some(v) => self@.contains_key(key@) && *v == self@[key@],
                None => !self@.contains_key(key@),
            },
    {
        proof {
            use_type_invariant(self);
            lemma_map_dom(self.entries@);
        }
        match position_in(&self.entries, key) {
            Some(i) => {
                proof {
                    lemma_map_at(self.entries@, i as int);
                }
                Some(&self.entries[i].1)
            },
            None => None,
        }
    }

    /// The text under `key`, if that is what it holds.
    pub fn get_text(&self, key: &str) -> (r: Option<String>)
        ensures
            opt_view(r) == text_at(self@, key@),
    {
        match self.get(key) {
            Some(TomlValue::Text(s)) => Some(s.clone()),
            _ => None,
        }
    }

    /// The flag under `key`, if that is what it holds.
    pub fn get_flag(&self, key: &str) -> (r: Option<bool>)
        ensures
            r == flag_at(self@, key@),
    {
        match self.get(key) {
            Some(TomlValue::Flag(b)) => Some(*b),
            _ => None,
        }
    }

    /// The texts in the list under `key`, if it holds a list.
    pub fn get_texts(&self, key: &str) -> (r: Option<Vec<String>>)
        ensures
            match r {
                Some(v) => texts_at(self@, key@) == Some(string_views(v@)),
                None => texts_at(self@, key@) is None,
            },
    {
        match self.get(key) {
            Some(TomlValue::List(items)) => Some(texts_of(items)),
            _ => None,
        }
    }

    /// Whether `key` has a value.
    pub fn contains_key(&self, key: &str) -> (r: bool)
        ensures
            r == self@.contains_key(key@),
    {
        match self.get(key) {
            Some(_) => true,
            None => false,
        }
    }

    /// Sets `key` to `value`: a key already present keeps its place, a new
    /// one goes last.
    pub fn insert(&mut self, key: String, value: TomlValue)
        ensures
            final(self)@ == old(self)@.insert(key@, value),
            final(self).key_list() == (if old(self)@.contains_key(key@) {
                old(self).key_list()
            } else {
                old(self).key_list().push(key@)
            }),
    {
        proof {
            use_type_invariant(&*self);
            lemma_map_dom(self.entries@);
        }
        let mut entries: Vec<(String, TomlValue)> = Vec::new();
        std::mem::swap(&mut entries, &mut self.entries);
        let ghost s = entries@;
        match position_in(&entries, key.as_str()) {
            Some(i) => {
                let (k, _previous) = entries.remove(i);
                entries.insert(i, (k, value));
                proof {
                    assert(entries@ =~= s.update(i as int, (s[i as int].0, value)));
                    lemma_map_update(s, i as int, value);
                    assert(entry_keys(entries@) =~= entry_keys(s));
                }
            },
            None => {
                entries.push((key, value));
                proof {
                    assert(entries@.drop_last() =~= s);
                    assert(entry_keys(entries@) =~= entry_keys(s).push(key@));
                }
            },
        }
        self.entries = entries;
    }

    /// Sets `key` to `value` unless it already has a value (what
    /// `entry(key).or_insert(value)` does).
    pub fn or_insert(&mut self, key: &str, value: TomlValue)
        ensures
            final(self)@ == (if old(self)@.contains_key(key@) {
                old(self)@
            } else {
                old(self)@.insert(key@, value)
            }),
            final(self).key_list() == (if old(self)@.contains_key(key@) {
                old(self).key_list()
            } else {
                old(self).key_list().push(key@)
            }),
    {
        if !self.contains_key(key) {
            self.insert(owned(key), value);
        }
    }

    /// Removes `key`; whether it had a value.
    pub fn remove(&mut self, key: &str) -> (r: bool)
        ensures
            r == old(self)@.contains_key(key@),
            final(self)@ == old(self)@.remove(key@),
    {
        proof {
            use_type_invariant(&*self);
            lemma_map_dom(self.entries@);
        }
        let mut entries: Vec<(String, TomlValue)> = Vec::new();
        std::mem::swap(&mut entries, &mut self.entries);
        let ghost s = entries@;
        let found = match position_in(&entries, key) {
            Some(i) => {
                entries.remove(i);
                proof {
                    lemma_map_remove(s, i as int);
                }
                true
            },
            None => {
                assert(entries_map(s).remove(key@) =~= entries_map(s));
                false
            },
        };
        self.entries = entries;
        found
    }

    /// Removes every entry.
    pub fn clear(&mut self)
        ensures
            final(self)@ == Map::<Seq<char>, TomlValue>::empty(),
            final(self).key_list() == Seq::<Seq<char>>::empty(),
    {
        self.entries = Vec::new();
        assert(entry_keys(self.entries@) =~= Seq::<Seq<char>>::empty());
    }

    /// The number of entries.
    pub fn len(&self) -> (r: usize)
        ensures
            r == self.key_list().len(),
            r == self@.len(),
    {
        proof {
            use_type_invariant(self);
            lemma_keys_cover(self.entries@);
        }
        self.entries.len()
    }

    /// The keys in document order.
    pub fn keys(&self) -> (r: Vec<String>)
        ensures
            string_views(r@) == self.key_list(),
            self.key_list().no_duplicates(),
            forall|k: Seq<char>| self@.contains_key(k) <==> self.key_list().contains(k),
    {
        proof {
            use_type_invariant(self);
            lemma_keys_cover(self.entries@);
        }
        let mut r: Vec<String> = Vec::new();
        let mut i: usize = 0;
        while i < self.entries.len()
            invariant
                0 <= i <= self.entries@.len(),
                string_views(r@) =~= entry_keys(self.entries@).take(i as int),
            decreases self.entries@.len() - i,
        {
            let ghost before = r@;
            let k = self.entries[i].0.clone();
            r.push(k);
            proof {
                assert(string_views(r@) =~= string_views(before).push(self.entries@[i as int].0@));
                assert(entry_keys(self.entries@).take(i + 1) =~= entry_keys(self.entries@).take(
                    i as int,
                ).push(self.entries@[i as int].0@));
            }
            i = i + 1;
        }
        assert(entry_keys(self.entries@).take(i as int) =~= entry_keys(self.entries@));
        r
    }

    /// The entries in document order, no key twice.
    pub fn into_entries(self) -> (r: Vec<(String, TomlValue)>)
        ensures
            entries_map(r@) == self@,
            entry_keys(r@) == self.key_list(),
            keys_distinct(r@),
    {
        proof {
            use_type_invariant(&self);
        }
        self.entries
    }

    /// Takes out the table under `key` for editing, an empty one when `key`
    /// has no value. An empty table holds its place until `insert` puts the
    /// edited one back.
    pub fn take_table(&mut self, key: &str) -> (r: TomlTable)
        requires
            old(self)@.contains_key(key@) ==> old(self)@[key@] is Table,
        ensures
            r@ == child_map(old(self)@, key@),
            r.key_list() == child_keys(old(self)@, key@),
            old(self)@.contains_key(key@) ==> old(self)@[key@] == TomlValue::Table(r),
            final(self)@.contains_key(key@),
            final(self)@[key@] is Table,
            final(self)@.remove(key@) == old(self)@.remove(key@),
            final(self).key_list() == (if old(self)@.contains_key(key@) {
                old(self).key_list()
            } else {
                old(self).key_list().push(key@)
            }),
    {
        proof {
            use_type_invariant(&*self);
            lemma_map_dom(self.entries@);
        }
        let mut entries: Vec<(String, TomlValue)> = Vec::new();
        std::mem::swap(&mut entries, &mut self.entries);
        let ghost s = entries@;
        let taken = match position_in(&entries, key) {
            Some(i) => {
                proof {
                    lemma_map_at(s, i as int);
                }
                let (k, v) = entries.remove(i);
                let placeholder = TomlValue::Table(TomlTable::new());
                let ghost p = placeholder;
                entries.insert(i, (k, placeholder));
                proof {
                    assert(entries@ =~= s.update(i as int, (s[i as int].0, p)));
                    lemma_map_update(s, i as int, p);
                    assert(entry_keys(entries@) =~= entry_keys(s));
                }
                match v {
                    TomlValue::Table(t) => t,
                    _ => TomlTable::new(),
                }
            },
            None => {
                entries.push((owned(key), TomlValue::Table(TomlTable::new())));
                proof {
                    assert(entries@.drop_last() =~= s);
                    assert(entry_keys(entries@) =~= entry_keys(s).push(key@));
                }
                TomlTable::new()
            },
        };
        self.entries = entries;
        taken
    }
}

impl View for TomlTable {
    type V = Map<Seq<char>, TomlValue>;

    closed spec fn view(&self) -> Map<Seq<char>, TomlValue> {
        entries_map(self.entries@)
    }
}

} // verus!
