//! A key/value store of settings and its text form.
//!
//! The text form has one `key=value` entry per line. When it is read, a
//! line without `=` is skipped, the key is the part before the first `=`
//! and the value the rest of the line; a key met again overrides the value
//! read before.
use crate::text::{
    chars_of, find_first, lemma_find_first_at, lemma_split_append, lemma_split_nonempty,
    lemma_split_push_sep, lines, push_str, split, split_bounds, string_of, string_push,
    strip_carriage_return,
};
use vstd::prelude::*;

verus! {

/// An entry: a key and its value.
pub type EntryView = (Seq<char>, Seq<char>);

/// No key occurs twice.
pub open spec fn keys_distinct(entries: Seq<EntryView>) -> bool {
    forall|i: int, j: int|
        0 <= i < entries.len() && 0 <= j < entries.len() && i != j ==> #[trigger] entries[i].0
            != #[trigger] entries[j].0
}

/// The index of the first entry with key `key`, if any.
pub open spec fn index_of_key(entries: Seq<EntryView>, key: Seq<char>) -> Option<int>
    decreases entries.len(),
{
    if entries.len() == 0 {
        None
    } else if entries[0].0 == key {
        Some(0)
    } else {
        match index_of_key(entries.drop_first(), key) {
            Some(i) => Some(i + 1),
            None => None,
        }
    }
}

/// The value stored under `key`, if any.
pub open spec fn value_of(entries: Seq<EntryView>, key: Seq<char>) -> Option<Seq<char>> {
    match index_of_key(entries, key) {
        Some(i) => Some(entries[i].1),
        None => None,
    }
}

/// `entries` with `key` set to `value`: the entry with that key gets the
/// new value in place, or a new entry is added at the end.
pub open spec fn upsert(entries: Seq<EntryView>, key: Seq<char>, value: Seq<char>) -> Seq<
    EntryView,
> {
    match index_of_key(entries, key) {
        Some(i) => entries.update(i, (key, value)),
        None => entries.push((key, value)),
    }
}

/// The entry a line of settings text gives: the part before the first `=`
/// and the part after it; `None` for a line without `=`.
pub open spec fn entry_of_line(line: Seq<char>) -> Option<EntryView> {
    match find_first(line, '=') {
        Some(i) => Some((line.take(i), line.skip(i + 1))),
        None => None,
    }
}

/// The entries that a sequence of lines gives, read in order.
pub open spec fn entries_of_lines(lines: Seq<Seq<char>>) -> Seq<EntryView>
    decreases lines.len(),
{
    if lines.len() == 0 {
        Seq::empty()
    } else {
        let before = entries_of_lines(lines.drop_last());
        match entry_of_line(lines.last()) {
            Some(e) => upsert(before, e.0, e.1),
            None => before,
        }
    }
}

/// The entries that settings text gives.
pub open spec fn parse_entries(content: Seq<char>) -> Seq<EntryView> {
    entries_of_lines(lines(content))
}

/// The line `key=value`.
pub open spec fn entry_line(e: EntryView) -> Seq<char> {
    e.0 + seq!['='] + e.1
}

/// The lines joined with `'\n'` between them.
pub open spec fn join_lines(ls: Seq<Seq<char>>) -> Seq<char>
    decreases ls.len(),
{
    if ls.len() == 0 {
        Seq::empty()
    } else if ls.len() == 1 {
        ls[0]
    } else {
        join_lines(ls.drop_last()) + seq!['\n'] + ls.last()
    }
}

/// The settings text of a sequence of entries: one `key=value` line per
/// entry, in order.
pub open spec fn serialize_entries(entries: Seq<EntryView>) -> Seq<char> {
    join_lines(entries.map_values(|e: EntryView| entry_line(e)))
}

/// The key/value pairs of a list of string pairs.
pub open spec fn entry_views(entries: Seq<(String, String)>) -> Seq<EntryView> {
    entries.map_values(|e: (String, String)| (e.0@, e.1@))
}

/// Settings: values stored under keys, each key once.
pub struct Settings {
    entries: Vec<(String, String)>,
}

impl View for Settings {
    type V = Seq<EntryView>;

    /// The entries in the order they were first set.
    closed spec fn view(&self) -> Seq<EntryView> {
        entry_views(self.entries@)
    }
}

impl Settings {
    #[verifier::type_invariant]
    spec fn keys_are_distinct(self) -> bool {
        keys_distinct(entry_views(self.entries@))
    }

    /// Settings with no entry.
    pub fn new() -> (r: Self)
        ensures
            r@ == Seq::<EntryView>::empty(),
            keys_distinct(r@),
    {
        let r = Self { entries: Vec::new() };
        assert(entry_views(r.entries@) =~= Seq::<EntryView>::empty());
        r
    }

    /// Where the entry with key `key` is, if there is one.
    fn position(&self, key: &String) -> (r: Option<usize>)
        ensures
            r matches Some(i) ==> index_of_key(self@, key@) == Some(i as int),
            r is None ==> index_of_key(self@, key@) is None,
    {
        let mut i: usize = 0;
        while i < self.entries.len()
            invariant
                i <= self.entries@.len(),
                forall|j: int| 0 <= j < i ==> #[trigger] self@[j].0 != key@,
            decreases self.entries.len() - i,
        {
            if self.entries[i].0 == *key {
                proof {
                    lemma_index_of_key_at(self@, key@, i as int);
                }
                return Some(i);
            }
            i = i + 1;
        }
        proof {
            lemma_index_of_key_at(self@, key@, i as int);
        }
        None
    }

    /// The value stored under `key`, if any.
    pub fn get(&self, key: &str) -> (r: Option<String>)
        ensures
            r matches Some(v) ==> value_of(self@, key@) == Some(v@),
            r is None <==> value_of(self@, key@) is None,
    {
        let key_string = key.to_owned();
        match self.position(&key_string) {
            Some(i) => {
                proof {
                    lemma_index_of_key(self@, key@);
                }
                Some(self.entries[i].1.clone())
            },
            None => None,
        }
    }

    /// Stores `value` under `key`.
    pub fn set(&mut self, key: &str, value: String)
        ensures
            final(self)@ == upsert(old(self)@, key@, value@),
            keys_distinct(final(self)@),
    {
        proof {
            use_type_invariant(&*self);
            lemma_index_of_key(self@, key@);
        }
        let key_string = key.to_owned();
        let ghost key_view = key_string@;
        let ghost value_view = value@;
        let ghost before = self@;
        match self.position(&key_string) {
            Some(i) => {
                let mut entries: Vec<(String, String)> = Vec::new();
                std::mem::swap(&mut entries, &mut self.entries);
                entries.set(i, (key_string, value));
                proof {
                    assert(entry_views(entries@) =~= before.update(i as int, (key_view, value_view)));
                    lemma_upsert_distinct(before, key_view, value_view);
                }
                self.entries = entries;
            },
            None => {
                let mut entries: Vec<(String, String)> = Vec::new();
                std::mem::swap(&mut entries, &mut self.entries);
                entries.push((key_string, value));
                proof {
                    assert(entry_views(entries@) =~= before.push((key_view, value_view)));
                    lemma_upsert_distinct(before, key_view, value_view);
                }
                self.entries = entries;
            },
        }
    }
}

impl Settings {
    /// The settings that a settings text holds (see the module's text form).
    pub fn parse(content: &str) -> (r: Settings)
        ensures
            r@ == parse_entries(content@),
            keys_distinct(r@),
    {
        let chars = chars_of(content);
        let cs = chars.as_slice();
        let bounds = split_bounds(cs, '\n');
        proof {
            assert forall|k: int| #![trigger bounds@[k]] 0 <= k < bounds@.len() implies bounds@[k].0
                <= bounds@[k].1 <= chars@.len() by {
                assert(bounds@[k].0 <= bounds@[k].1 <= cs@.len());
            }
        }
        let ghost pieces = split(chars@, '\n');
        let ghost all_lines = lines(chars@);
        proof {
            lemma_split_nonempty(chars@, '\n');
            lemma_lines_of_pieces(chars@);
        }
        let n = bounds.len();
        let mut settings = Settings::new();
        let mut j: usize = 0;
        while j < n
            invariant
                n == bounds@.len() == pieces.len() >= 1,
                j <= n,
                pieces == split(chars@, '\n'),
                all_lines == lines(chars@),
                forall|k: int| #![trigger bounds@[k]] 0 <= k < bounds@.len() ==> bounds@[k].0 <= bounds@[k].1
                    <= chars@.len(),
                forall|k: int|
                    0 <= k < bounds@.len() ==> chars@.subrange(bounds@[k].0 as int, bounds@[k].1 as int)
                        == #[trigger] pieces[k],
                forall|k: int|
                    0 <= k < n - 1 ==> #[trigger] all_lines[k] == strip_carriage_return(pieces[k]),
                pieces.last().len() == 0 ==> all_lines.len() == n - 1,
                pieces.last().len() != 0 ==> all_lines.len() == n && all_lines[n - 1]
                    == pieces.last(),
                j <= all_lines.len(),
                settings@ == entries_of_lines(all_lines.take(j as int)),
                keys_distinct(settings@),
                all_lines.take(all_lines.len() as int) == all_lines,
            ensures
                settings@ == entries_of_lines(all_lines),
                keys_distinct(settings@),
            decreases n - j,
        {
            let (from, piece_to) = bounds[j];
            if j + 1 == n && from == piece_to {
                proof {
                    assert(pieces.last() == pieces[j as int]);
                    assert(all_lines.take(j as int) == all_lines);
                }
                break;
            }
            let mut to = piece_to;
            if j + 1 < n && to > from && chars[to - 1] == '\r' {
                to = to - 1;
            }
            let ghost line = chars@.subrange(from as int, to as int);
            proof {
                if j + 1 < n {
                    assert(all_lines[j as int] == strip_carriage_return(pieces[j as int]));
                    if piece_to > from && chars@[piece_to - 1] == '\r' {
                        assert(pieces[j as int].drop_last() =~= line);
                    } else {
                        assert(pieces[j as int] =~= line);
                    }
                } else {
                    assert(pieces.last() == pieces[j as int]);
                    assert(pieces[j as int] =~= line);
                }
                assert(all_lines[j as int] == line);
                assert(all_lines.take(j + 1).drop_last() =~= all_lines.take(j as int));
                assert(all_lines.take(j + 1).last() == line);
            }
            let mut p = from;
            while p < to && chars[p] != '='
                invariant
                    from <= p <= to <= chars@.len(),
                    line == chars@.subrange(from as int, to as int),
                    forall|k: int| 0 <= k < p - from ==> line[k] != '=',
                decreases to - p,
            {
                p = p + 1;
            }
            proof {
                lemma_find_first_at(line, '=', p - from);
            }
            if p < to {
                let key = string_of(chars.as_slice(), from, p);
                let value = string_of(chars.as_slice(), p + 1, to);
                proof {
                    assert(key@ =~= line.take(p - from));
                    assert(value@ =~= line.skip(p - from + 1));
                }
                settings.set(key.as_str(), value);
            }
            j = j + 1;
        }
        settings
    }

    /// The settings text of these settings: one `key=value` line per entry,
    /// in the order of the entries, joined with `'\n'`.
    pub fn serialize(&self) -> (r: String)
        ensures
            r@ == serialize_entries(self@),
    {
        let ghost ls = self@.map_values(|e: EntryView| entry_line(e));
        let mut r = String::new();
        let mut i: usize = 0;
        while i < self.entries.len()
            invariant
                i <= self.entries@.len(),
                ls == self@.map_values(|e: EntryView| entry_line(e)),
                r@ == join_lines(ls.take(i as int)),
            decreases self.entries.len() - i,
        {
            let ghost before = r@;
            if i > 0 {
                string_push(&mut r, '\n');
            }
            push_str(&mut r, self.entries[i].0.as_str());
            string_push(&mut r, '=');
            push_str(&mut r, self.entries[i].1.as_str());
            proof {
                let line = ls[i as int];
                assert(line == self@[i as int].0 + seq!['='] + self@[i as int].1);
                assert(ls.take(i + 1).drop_last() =~= ls.take(i as int));
                assert(ls.take(i + 1).last() == line);
                if i > 0 {
                    assert(r@ =~= before + seq!['\n'] + line);
                } else {
                    assert(ls.take(1) =~= seq![line]);
                    assert(r@ =~= line);
                }
            }
            i = i + 1;
        }
        assert(ls.take(i as int) =~= ls);
        r
    }
}

/// The lines of a text, stated by its pieces between `'\n'`.
pub proof fn lemma_lines_of_pieces(s: Seq<char>)
    ensures
        ({
            let pieces = split(s, '\n');
            let ls = lines(s);
            &&& forall|k: int| 0 <= k < pieces.len() - 1 ==> #[trigger] ls[k] == strip_carriage_return(pieces[k])
            &&& pieces.last().len() == 0 ==> ls.len() == pieces.len() - 1
            &&& pieces.last().len() != 0 ==> ls.len() == pieces.len() && ls[pieces.len() - 1] == pieces.last()
        }),
{
    lemma_split_nonempty(s, '\n');
}

/// What `index_of_key` gives: an index holding `key`, the first one.
pub proof fn lemma_index_of_key(entries: Seq<EntryView>, key: Seq<char>)
    ensures
        index_of_key(entries, key) matches Some(i) ==> 0 <= i < entries.len() && entries[i].0
            == key && forall|j: int| 0 <= j < i ==> #[trigger] entries[j].0 != key,
        index_of_key(entries, key) is None ==> forall|j: int|
            0 <= j < entries.len() ==> #[trigger] entries[j].0 != key,
    decreases entries.len(),
{
    if entries.len() > 0 && entries[0].0 != key {
        lemma_index_of_key(entries.drop_first(), key);
        assert forall|j: int| 0 < j < entries.len() implies entries[j] == entries.drop_first()[j
            - 1] by {}
    }
}

/// `index_of_key` gives `i` when entry `i` has the key and no earlier one
/// does, and nothing when no entry up to the end has it.
pub proof fn lemma_index_of_key_at(entries: Seq<EntryView>, key: Seq<char>, i: int)
    requires
        0 <= i <= entries.len(),
        forall|j: int| 0 <= j < i ==> #[trigger] entries[j].0 != key,
    ensures
        i < entries.len() && entries[i].0 == key ==> index_of_key(entries, key) == Some(i),
        i == entries.len() ==> index_of_key(entries, key) is None,
    decreases entries.len(),
{
    if entries.len() > 0 && i > 0 {
        assert forall|j: int| 0 <= j < i - 1 implies #[trigger] entries.drop_first()[j].0 != key by {
            assert(entries.drop_first()[j] == entries[j + 1]);
        }
        lemma_index_of_key_at(entries.drop_first(), key, i - 1);
    }
}

/// Setting a value keeps the keys distinct.
pub proof fn lemma_upsert_distinct(entries: Seq<EntryView>, key: Seq<char>, value: Seq<char>)
    requires
        keys_distinct(entries),
    ensures
        keys_distinct(upsert(entries, key, value)),
{
    lemma_index_of_key(entries, key);
    let r = upsert(entries, key, value);
    assert forall|i: int, j: int|
        0 <= i < r.len() && 0 <= j < r.len() && i != j implies #[trigger] r[i].0
        != #[trigger] r[j].0 by {
        if i < entries.len() && j < entries.len() {
            assert(entries[i].0 != entries[j].0);
        }
    }
}

/// A read gives back what a write wrote: after `key` is set to `value`, the
/// value under `key` is `value`, and the value under any other key is what
/// it was.
pub proof fn law_get_after_set(
    entries: Seq<EntryView>,
    key: Seq<char>,
    value: Seq<char>,
    other: Seq<char>,
)
    ensures
        value_of(upsert(entries, key, value), key) == Some(value),
        other != key ==> value_of(upsert(entries, key, value), other) == value_of(entries, other),
{
    lemma_index_of_key(entries, key);
    lemma_index_of_key(entries, other);
    let r = upsert(entries, key, value);
    lemma_index_of_key(r, key);
    lemma_index_of_key(r, other);
    match index_of_key(entries, key) {
        Some(i) => {
            assert(r[i].0 == key);
            if index_of_key(r, key) != Some(i) {
                let k = index_of_key(r, key)->0;
                assert(r[k].0 == key);
            }
            if other != key {
                match index_of_key(entries, other) {
                    Some(o) => {
                        assert(r[o].0 == other);
                        if index_of_key(r, other) != Some(o) {
                            let k = index_of_key(r, other)->0;
                            assert(r[k].0 == other);
                        }
                    },
                    None => {
                        if index_of_key(r, other) is Some {
                            let k = index_of_key(r, other)->0;
                            assert(r[k].0 == other);
                            assert(k != i);
                            assert(entries[k].0 == other);
                        }
                    },
                }
            }
        },
        None => {
            let n = entries.len() as int;
            assert(r[n].0 == key);
            if index_of_key(r, key) != Some(n) {
                let k = index_of_key(r, key)->0;
                assert(r[k].0 == key);
            }
            if other != key {
                match index_of_key(entries, other) {
                    Some(o) => {
                        assert(r[o].0 == other);
                        if index_of_key(r, other) != Some(o) {
                            let k = index_of_key(r, other)->0;
                            assert(r[k].0 == other);
                        }
                    },
                    None => {
                        if index_of_key(r, other) is Some {
                            let k = index_of_key(r, other)->0;
                            assert(r[k].0 == other);
                            assert(k != n);
                            assert(entries[k].0 == other);
                        }
                    },
                }
            }
        },
    }
}

/// An entry that survives being written as settings text and read back:
/// its key holds no `=` and no line break, its value no line break, and the
/// value does not end in a carriage return.
pub open spec fn entry_is_writable(e: EntryView) -> bool {
    &&& forall|i: int| 0 <= i < e.0.len() ==> e.0[i] != '=' && e.0[i] != '\n'
    &&& forall|i: int| 0 <= i < e.1.len() ==> e.1[i] != '\n'
    &&& e.1.len() == 0 || e.1.last() != '\r'
}

/// Splitting joined lines at `'\n'` gives the lines back, when none holds
/// a `'\n'`.
proof fn lemma_split_join_lines(ls: Seq<Seq<char>>)
    requires
        ls.len() >= 1,
        forall|k: int, i: int| 0 <= k < ls.len() && 0 <= i < ls[k].len() ==> #[trigger] ls[k][i] != '\n',
    ensures
        split(join_lines(ls), '\n') == ls,
    decreases ls.len(),
{
    let last = ls.last();
    assert(forall|i: int| 0 <= i < last.len() ==> last[i] != '\n') by {
        assert forall|i: int| 0 <= i < last.len() implies last[i] != '\n' by {
            assert(ls[ls.len() - 1][i] != '\n');
        }
    }
    if ls.len() == 1 {
        lemma_split_append(Seq::empty(), last, '\n');
        assert(Seq::<char>::empty() + last =~= last);
        assert(split(Seq::<char>::empty(), '\n') =~= seq![Seq::<char>::empty()]);
        assert(split(last, '\n') =~= ls);
    } else {
        let front = ls.drop_last();
        assert forall|k: int, i: int| 0 <= k < front.len() && 0 <= i < front[k].len() implies #[trigger] front[k][i] != '\n' by {
            assert(front[k] == ls[k]);
        }
        lemma_split_join_lines(front);
        let joined = join_lines(front);
        lemma_split_push_sep(joined, '\n');
        lemma_split_append(joined.push('\n'), last, '\n');
        assert(joined + seq!['\n'] + last =~= joined.push('\n') + last);
        let p = split(joined.push('\n'), '\n');
        assert(p == front.push(Seq::empty()));
        assert(p.update(p.len() - 1, p.last() + last) =~= ls);
    }
}

/// Cutting joined lines into lines gives the lines back, when each is
/// non-empty, holds no `'\n'` and does not end in `'\r'`.
proof fn lemma_lines_join_lines(ls: Seq<Seq<char>>)
    requires
        forall|k: int| 0 <= k < ls.len() ==> (#[trigger] ls[k]).len() > 0 && ls[k].last() != '\r',
        forall|k: int, i: int| 0 <= k < ls.len() && 0 <= i < ls[k].len() ==> #[trigger] ls[k][i] != '\n',
    ensures
        lines(join_lines(ls)) == ls,
{
    if ls.len() == 0 {
        assert(split(Seq::<char>::empty(), '\n') =~= seq![Seq::<char>::empty()]);
        assert(lines(join_lines(ls)) =~= ls);
    } else {
        lemma_split_join_lines(ls);
        let ended = ls.drop_last().map_values(|p: Seq<char>| strip_carriage_return(p));
        assert(ended =~= ls.drop_last());
        assert(ls[ls.len() - 1].len() > 0);
        assert(ended.push(ls.last()) =~= ls);
    }
}

/// The line of an entry whose key holds no `=` reads back as that entry.
proof fn lemma_entry_of_entry_line(e: EntryView)
    requires
        forall|i: int| 0 <= i < e.0.len() ==> e.0[i] != '=',
    ensures
        entry_of_line(entry_line(e)) == Some(e),
{
    let line = entry_line(e);
    let n = e.0.len() as int;
    assert forall|j: int| 0 <= j < n implies line[j] != '=' by {
        assert(line[j] == e.0[j]);
    }
    assert(line[n] == '=');
    lemma_find_first_at(line, '=', n);
    assert(line.take(n) =~= e.0);
    assert(line.skip(n + 1) =~= e.1);
}

/// Reading the lines of distinct writable entries gives the entries back.
proof fn lemma_entries_of_entry_lines(entries: Seq<EntryView>)
    requires
        keys_distinct(entries),
        forall|k: int| 0 <= k < entries.len() ==> entry_is_writable(#[trigger] entries[k]),
    ensures
        entries_of_lines(entries.map_values(|e: EntryView| entry_line(e))) == entries,
    decreases entries.len(),
{
    if entries.len() > 0 {
        let ls = entries.map_values(|e: EntryView| entry_line(e));
        let front = entries.drop_last();
        assert(ls.drop_last() =~= front.map_values(|e: EntryView| entry_line(e)));
        assert forall|i: int, j: int|
            0 <= i < front.len() && 0 <= j < front.len() && i != j implies #[trigger] front[i].0
            != #[trigger] front[j].0 by {
            assert(entries[i].0 != entries[j].0);
        }
        assert forall|k: int| 0 <= k < front.len() implies entry_is_writable(#[trigger] front[k]) by {
            assert(entry_is_writable(entries[k]));
        }
        lemma_entries_of_entry_lines(front);
        let e = entries.last();
        assert(entry_is_writable(entries[entries.len() - 1]));
        lemma_entry_of_entry_line(e);
        assert(ls.last() == entry_line(e));
        assert forall|j: int| 0 <= j < front.len() implies #[trigger] front[j].0 != e.0 by {
            assert(entries[j].0 != entries[entries.len() - 1].0);
        }
        lemma_index_of_key_at(front, e.0, front.len() as int);
        assert(front.push(e) =~= entries);
    }
}

/// Settings written as text and read back are the same settings, when every
/// entry is writable (see `entry_is_writable`).
pub proof fn law_settings_text_roundtrip(entries: Seq<EntryView>)
    requires
        keys_distinct(entries),
        forall|k: int| 0 <= k < entries.len() ==> entry_is_writable(#[trigger] entries[k]),
    ensures
        parse_entries(serialize_entries(entries)) == entries,
{
    let ls = entries.map_values(|e: EntryView| entry_line(e));
    assert forall|k: int| 0 <= k < ls.len() implies (#[trigger] ls[k]).len() > 0 && ls[k].last()
        != '\r' by {
        let e = entries[k];
        assert(entry_is_writable(e));
        assert(ls[k] == e.0 + seq!['='] + e.1);
        if e.1.len() == 0 {
            assert(ls[k].last() == '=');
        } else {
            assert(ls[k].last() == e.1.last());
        }
    }
    assert forall|k: int, i: int| 0 <= k < ls.len() && 0 <= i < ls[k].len() implies #[trigger] ls[k][i]
        != '\n' by {
        let e = entries[k];
        assert(entry_is_writable(e));
        assert(ls[k] == e.0 + seq!['='] + e.1);
        if i < e.0.len() {
            assert(ls[k][i] == e.0[i]);
        } else if i > e.0.len() {
            assert(ls[k][i] == e.1[i - e.0.len() - 1]);
        }
    }
    lemma_lines_join_lines(ls);
    lemma_entries_of_entry_lines(entries);
}

} // verus!
