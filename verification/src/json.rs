//! JSON values as the library holds them, and the texts that stand for them.
use crate::text;
use vstd::prelude::*;
use vstd::utf8::*;

verus! {

/// A JSON value. Of numbers only those that fit an unsigned word are kept apart;
/// the library tells no two others from each other.
pub enum Json {
    Null,
    Bool(bool),
    Unsigned(u64),
    Other,
    Text(String),
    List(Vec<Json>),
    Object(Vec<(String, Json)>),
}

/// A JSON value as mathematics.
pub enum JsonView {
    Null,
    Bool(bool),
    Unsigned(u64),
    Other,
    Text(Seq<char>),
    List(Seq<JsonView>),
    Object(Seq<(Seq<char>, JsonView)>),
}

impl View for Json {
    type V = JsonView;

    open spec fn view(&self) -> JsonView
        decreases self,
    {
        match self {
            Json::Null => JsonView::Null,
            Json::Bool(b) => JsonView::Bool(*b),
            Json::Unsigned(n) => JsonView::Unsigned(*n),
            Json::Other => JsonView::Other,
            Json::Text(s) => JsonView::Text(s@),
            Json::List(v) => JsonView::List(
                Seq::new(
                    v@.len(),
                    |i: int|
                        if 0 <= i < v@.len() {
                            v@[i].view()
                        } else {
                            JsonView::Null
                        },
                ),
            ),
            Json::Object(v) => JsonView::Object(
                Seq::new(
                    v@.len(),
                    |i: int|
                        if 0 <= i < v@.len() {
                            (v@[i].0@, v@[i].1.view())
                        } else {
                            (seq![], JsonView::Null)
                        },
                ),
            ),
        }
    }
}

/// The values of a list.
pub open spec fn items_view(v: Seq<Json>) -> Seq<JsonView> {
    Seq::new(v.len(), |i: int| v[i]@)
}

/// The members of an object.
pub open spec fn entries_view(v: Seq<(String, Json)>) -> Seq<(Seq<char>, JsonView)> {
    Seq::new(v.len(), |i: int| (v[i].0@, v[i].1@))
}

/// A list stands for the values in it.
pub broadcast proof fn lemma_list_view(v: Vec<Json>)
    ensures
        #[trigger] Json::List(v)@ == JsonView::List(items_view(v@)),
{
    reveal_with_fuel(<Json as View>::view, 2);
    let a = Json::List(v)@->List_0;
    assert forall|i: int| 0 <= i < v@.len() implies a[i] == items_view(v@)[i] by {}
    assert(a =~= items_view(v@));
}

/// An object stands for the members in it.
pub broadcast proof fn lemma_object_view(v: Vec<(String, Json)>)
    ensures
        #[trigger] Json::Object(v)@ == JsonView::Object(entries_view(v@)),
{
    reveal_with_fuel(<Json as View>::view, 2);
    let a = Json::Object(v)@->Object_0;
    assert forall|i: int| 0 <= i < v@.len() implies a[i] == entries_view(v@)[i] by {}
    assert(a =~= entries_view(v@));
}

// ---------------------------------------------------------------- members

/// The number of leading members whose names come before `key`.
pub open spec fn rank(entries: Seq<(Seq<char>, JsonView)>, key: Seq<char>) -> nat
    decreases entries.len(),
{
    if entries.len() == 0 || !text::before(entries[0].0, key) {
        0
    } else {
        1 + rank(entries.drop_first(), key)
    }
}

/// The number of leading members that have another name than `key`.
pub open spec fn place(entries: Seq<(Seq<char>, JsonView)>, key: Seq<char>) -> nat
    decreases entries.len(),
{
    if entries.len() == 0 || entries[0].0 == key {
        0
    } else {
        1 + place(entries.drop_first(), key)
    }
}

/// The members with `key` set to `value`: where it stands, or in its place by name.
pub open spec fn entries_with(
    entries: Seq<(Seq<char>, JsonView)>,
    key: Seq<char>,
    value: JsonView,
) -> Seq<(Seq<char>, JsonView)> {
    let p = place(entries, key) as int;
    if p < entries.len() {
        entries.update(p, (key, value))
    } else {
        entries.insert(rank(entries, key) as int, (key, value))
    }
}

/// The value of the first member named `key`.
pub open spec fn entry(entries: Seq<(Seq<char>, JsonView)>, key: Seq<char>) -> Option<JsonView>
    decreases entries.len(),
{
    if entries.len() == 0 {
        None
    } else if entries[0].0 == key {
        Some(entries[0].1)
    } else {
        entry(entries.drop_first(), key)
    }
}

impl JsonView {
    /// The value of the member named `key`, of an object that has one.
    pub open spec fn member(self, key: Seq<char>) -> Option<JsonView> {
        match self {
            JsonView::Object(entries) => entry(entries, key),
            _ => None,
        }
    }

    /// The string under `key`.
    pub open spec fn text_at(self, key: Seq<char>) -> Option<Seq<char>> {
        match self.member(key) {
            Some(JsonView::Text(s)) => Some(s),
            _ => None,
        }
    }

    /// The unsigned number under `key`.
    pub open spec fn number_at(self, key: Seq<char>) -> Option<u64> {
        match self.member(key) {
            Some(JsonView::Unsigned(n)) => Some(n),
            _ => None,
        }
    }

    /// The truth value under `key`, or false.
    pub open spec fn flag_at(self, key: Seq<char>) -> bool {
        match self.member(key) {
            Some(JsonView::Bool(b)) => b,
            _ => false,
        }
    }

    /// The object with `key` set to `value`.
    pub open spec fn with(self, key: Seq<char>, value: JsonView) -> JsonView {
        match self {
            JsonView::Object(entries) => JsonView::Object(entries_with(entries, key, value)),
            _ => self,
        }
    }
}

// ---------------------------------------------------------------- texts

/// A character as it stands inside a JSON string.
pub open spec fn escaped(c: char) -> Seq<char> {
    if c == '"' {
        seq!['\\', '"']
    } else if c == '\\' {
        seq!['\\', '\\']
    } else if c == '\x08' {
        seq!['\\', 'b']
    } else if c == '\t' {
        seq!['\\', 't']
    } else if c == '\n' {
        seq!['\\', 'n']
    } else if c == '\x0c' {
        seq!['\\', 'f']
    } else if c == '\r' {
        seq!['\\', 'r']
    } else if (c as u32) < 32 {
        seq!['\\', 'u', '0', '0', text::hex_digit((c as nat) / 16), text::hex_digit((c as nat) % 16)]
    } else {
        seq![c]
    }
}

/// A string with each character as it stands inside a JSON string.
pub open spec fn all_escaped(s: Seq<char>) -> Seq<char>
    decreases s.len(),
{
    if s.len() == 0 {
        seq![]
    } else {
        escaped(s[0]) + all_escaped(s.drop_first())
    }
}

/// The JSON string that stands for `s`.
pub open spec fn quoted(s: Seq<char>) -> Seq<char> {
    seq!['"'] + all_escaped(s) + seq!['"']
}

/// The compact JSON text of a value.
pub open spec fn json_text(j: JsonView) -> Seq<char>
    decreases j,
{
    match j {
        JsonView::Null => seq!['n', 'u', 'l', 'l'],
        JsonView::Bool(true) => seq!['t', 'r', 'u', 'e'],
        JsonView::Bool(false) => seq!['f', 'a', 'l', 's', 'e'],
        JsonView::Unsigned(n) => text::decimal(n as nat),
        JsonView::Other => seq![],
        JsonView::Text(s) => quoted(s),
        JsonView::List(items) => seq!['['] + items_text(items) + seq![']'],
        JsonView::Object(entries) => seq!['{'] + entries_text(entries) + seq!['}'],
    }
}

/// The values of a list with commas between them.
pub open spec fn items_text(items: Seq<JsonView>) -> Seq<char>
    decreases items,
{
    if items.len() == 0 {
        seq![]
    } else if items.len() == 1 {
        json_text(items[0])
    } else {
        json_text(items[0]) + seq![','] + items_text(items.subrange(1, items.len() as int))
    }
}

/// The members of an object with commas between them.
pub open spec fn entries_text(entries: Seq<(Seq<char>, JsonView)>) -> Seq<char>
    decreases entries,
{
    if entries.len() == 0 {
        seq![]
    } else if entries.len() == 1 {
        quoted(entries[0].0) + seq![':'] + json_text(entries[0].1)
    } else {
        quoted(entries[0].0) + seq![':'] + json_text(entries[0].1) + seq![','] + entries_text(
            entries.subrange(1, entries.len() as int),
        )
    }
}

/// Whether no object names a member twice, every number is unsigned, and values nest at
/// most `depth` deep.
pub open spec fn canonical(j: JsonView, depth: nat) -> bool
    decreases depth,
{
    match j {
        JsonView::Other => false,
        JsonView::List(items) => {
            &&& depth > 0
            &&& forall|i: int| 0 <= i < items.len() ==> canonical(#[trigger] items[i], (depth - 1) as nat)
        },
        JsonView::Object(entries) => {
            &&& depth > 0
            &&& distinct(entries)
            &&& forall|i: int| 0 <= i < entries.len() ==> canonical((#[trigger] entries[i]).1, (depth - 1) as nat)
        },
        _ => true,
    }
}

/// A value that nests at most so deep nests at most deeper.
pub proof fn lemma_canonical_deeper(j: JsonView, depth: nat, deeper: nat)
    requires
        canonical(j, depth),
        depth <= deeper,
    ensures
        canonical(j, deeper),
    decreases depth,
{
    match j {
        JsonView::List(items) => {
            assert forall|i: int| 0 <= i < items.len() implies canonical(#[trigger] items[i], (deeper - 1) as nat) by {
                lemma_canonical_deeper(items[i], (depth - 1) as nat, (deeper - 1) as nat);
            }
        },
        JsonView::Object(entries) => {
            assert forall|i: int| 0 <= i < entries.len() implies canonical((#[trigger] entries[i]).1, (deeper - 1) as nat) by {
                lemma_canonical_deeper(entries[i].1, (depth - 1) as nat, (deeper - 1) as nat);
            }
        },
        _ => {},
    }
}

/// Whether no two members have the same name.
pub open spec fn distinct(entries: Seq<(Seq<char>, JsonView)>) -> bool {
    forall|i: int, j: int| 0 <= i < j < entries.len() ==> (#[trigger] entries[i]).0 != (#[trigger] entries[j]).0
}

/// Whether the members stand in the order of their names, none named twice.
pub open spec fn ascending(entries: Seq<(Seq<char>, JsonView)>) -> bool {
    forall|i: int, j: int| 0 <= i < j < entries.len() ==> text::before((#[trigger] entries[i]).0, (#[trigger] entries[j]).0)
}

/// Members in the order of their names have different names.
pub proof fn lemma_ascending_distinct(entries: Seq<(Seq<char>, JsonView)>)
    requires
        ascending(entries),
    ensures
        distinct(entries),
{
    assert forall|i: int, j: int| 0 <= i < j < entries.len() implies (#[trigger] entries[i]).0 != (
    #[trigger] entries[j]).0 by {
        text::lemma_before_irreflexive(entries[j].0);
    }
}

// ---------------------------------------------------------------- members: what is known

/// A member is found under its name where some member has that name.
pub proof fn lemma_entry(entries: Seq<(Seq<char>, JsonView)>, key: Seq<char>)
    ensures
        match entry(entries, key) {
            Some(v) => exists|i: int|
                0 <= i < entries.len() && (#[trigger] entries[i]).0 == key && entries[i].1 == v,
            None => forall|i: int| 0 <= i < entries.len() ==> (#[trigger] entries[i]).0 != key,
        },
    decreases entries.len(),
{
    if entries.len() > 0 && entries[0].0 != key {
        let rest = entries.drop_first();
        lemma_entry(rest, key);
        match entry(rest, key) {
            Some(v) => {
                let i = choose|i: int|
                    0 <= i < rest.len() && (#[trigger] rest[i]).0 == key && rest[i].1 == v;
                assert(entries[i + 1] == rest[i]);
            },
            None => {
                assert forall|i: int| 0 <= i < entries.len() implies (#[trigger] entries[i]).0 != key by {
                    if i > 0 {
                        assert(entries[i] == rest[i - 1]);
                    }
                }
            },
        }
    }
}

/// The member at a place is the one that its name finds.
pub proof fn lemma_entry_at(entries: Seq<(Seq<char>, JsonView)>, i: int)
    requires
        distinct(entries),
        0 <= i < entries.len(),
    ensures
        entry(entries, entries[i].0) == Some(entries[i].1),
{
    let key = entries[i].0;
    lemma_entry(entries, key);
    match entry(entries, key) {
        Some(v) => {
            let k = choose|k: int|
                0 <= k < entries.len() && (#[trigger] entries[k]).0 == key && entries[k].1 == v;
            assert(k == i);
        },
        None => {},
    }
}

/// The leading members that `rank` counts come before the name, and the next does not.
pub proof fn lemma_rank(entries: Seq<(Seq<char>, JsonView)>, key: Seq<char>)
    ensures
        rank(entries, key) <= entries.len(),
        forall|i: int| 0 <= i < rank(entries, key) ==> text::before((#[trigger] entries[i]).0, key),
        rank(entries, key) < entries.len() ==> !text::before(entries[rank(entries, key) as int].0, key),
    decreases entries.len(),
{
    if entries.len() > 0 && text::before(entries[0].0, key) {
        let rest = entries.drop_first();
        lemma_rank(rest, key);
        assert forall|i: int| 0 <= i < rank(entries, key) implies text::before((#[trigger] entries[i]).0, key) by {
            if i > 0 {
                assert(entries[i] == rest[i - 1]);
            }
        }
    }
}

/// The leading members that `place` counts have another name, and the next has that name.
pub proof fn lemma_place(entries: Seq<(Seq<char>, JsonView)>, key: Seq<char>)
    ensures
        place(entries, key) <= entries.len(),
        forall|i: int| 0 <= i < place(entries, key) ==> (#[trigger] entries[i]).0 != key,
        place(entries, key) < entries.len() ==> entries[place(entries, key) as int].0 == key,
    decreases entries.len(),
{
    if entries.len() > 0 && entries[0].0 != key {
        let rest = entries.drop_first();
        lemma_place(rest, key);
        assert forall|i: int| 0 <= i < place(entries, key) implies (#[trigger] entries[i]).0 != key by {
            if i > 0 {
                assert(entries[i] == rest[i - 1]);
            }
        }
    }
}

/// A value in place of another under a name is what that name finds; other names find
/// what they found.
proof fn lemma_entry_updated(entries: Seq<(Seq<char>, JsonView)>, p: int, value: JsonView, q: Seq<char>)
    requires
        0 <= p < entries.len(),
        forall|i: int| 0 <= i < p ==> (#[trigger] entries[i]).0 != entries[p].0,
    ensures
        entry(entries.update(p, (entries[p].0, value)), q) == (if q == entries[p].0 {
            Some(value)
        } else {
            entry(entries, q)
        }),
    decreases entries.len(),
{
    let out = entries.update(p, (entries[p].0, value));
    if p == 0 {
        assert(out.drop_first() =~= entries.drop_first());
    } else {
        let rest = entries.drop_first();
        assert forall|i: int| 0 <= i < p - 1 implies (#[trigger] rest[i]).0 != rest[p - 1].0 by {
            assert(rest[i] == entries[i + 1]);
        }
        lemma_entry_updated(rest, p - 1, value, q);
        assert(out.drop_first() =~= rest.update(p - 1, (rest[p - 1].0, value)));
    }
}

/// One more member is what its name finds, where none before it has that name; other
/// names find what they found.
proof fn lemma_entry_inserted(
    entries: Seq<(Seq<char>, JsonView)>,
    p: int,
    key: Seq<char>,
    value: JsonView,
    q: Seq<char>,
)
    requires
        0 <= p <= entries.len(),
        forall|i: int| 0 <= i < p ==> (#[trigger] entries[i]).0 != key,
    ensures
        entry(entries.insert(p, (key, value)), q) == (if q == key {
            Some(value)
        } else {
            entry(entries, q)
        }),
    decreases entries.len(),
{
    let out = entries.insert(p, (key, value));
    if p == 0 {
        assert(out.drop_first() =~= entries);
    } else {
        let rest = entries.drop_first();
        assert forall|i: int| 0 <= i < p - 1 implies (#[trigger] rest[i]).0 != key by {
            assert(rest[i] == entries[i + 1]);
        }
        lemma_entry_inserted(rest, p - 1, key, value, q);
        assert(out.drop_first() =~= rest.insert(p - 1, (key, value)));
    }
}

/// A member that was set is read back, and the others stay.
pub proof fn lemma_set(entries: Seq<(Seq<char>, JsonView)>, key: Seq<char>, value: JsonView, q: Seq<char>)
    ensures
        entry(entries_with(entries, key, value), q) == (if q == key {
            Some(value)
        } else {
            entry(entries, q)
        }),
{
    lemma_place(entries, key);
    lemma_rank(entries, key);
    let p = place(entries, key) as int;
    if p < entries.len() {
        lemma_entry_updated(entries, p, value, q);
    } else {
        lemma_entry_inserted(entries, rank(entries, key) as int, key, value, q);
    }
}

/// Setting a member keeps the order, and the other members.
pub proof fn lemma_with(entries: Seq<(Seq<char>, JsonView)>, key: Seq<char>, value: JsonView)
    requires
        ascending(entries),
    ensures
        ascending(entries_with(entries, key, value)),
        forall|i: int|
            0 <= i < entries_with(entries, key, value).len() ==> (#[trigger] entries_with(
                entries,
                key,
                value,
            )[i]).1 == value || (exists|k: int|
                0 <= k < entries.len() && entries[k] == entries_with(entries, key, value)[i]),
{
    let r = rank(entries, key) as int;
    let p = place(entries, key) as int;
    let out = entries_with(entries, key, value);
    lemma_rank(entries, key);
    lemma_place(entries, key);
    text::lemma_before_irreflexive(key);
    assert(p < entries.len() ==> p == r) by {
        if p < entries.len() && r < p {
            assert(text::before(entries[r].0, entries[p].0));
        }
    }
    let replaced = r < entries.len() && entries[r].0 == key;
    let shift: int = if replaced { 0 } else { 1 };
    assert forall|i: int| 0 <= i < r implies out[i] == entries[i] by {}
    assert(out[r] == (key, value));
    assert forall|i: int| r < i < out.len() implies out[i] == entries[i - shift] by {}
    assert forall|j: int| r <= j < entries.len() && entries[j].0 != key implies text::before(
        key,
        #[trigger] entries[j].0,
    ) by {
        if entries[r].0 == key {
            assert(j > r);
        } else {
            if !text::before(key, entries[r].0) {
                text::lemma_before_total(key, entries[r].0);
            }
            if j > r {
                text::lemma_before_transitive(key, entries[r].0, entries[j].0);
            }
        }
    }
    text::lemma_before_irreflexive(key);
    assert forall|i: int, j: int| 0 <= i < j < out.len() implies text::before(
        (#[trigger] out[i]).0,
        (#[trigger] out[j]).0,
    ) by {
        if j < r {
        } else if j == r {
        } else {
            let b = j - shift;
            if i < r {
                assert(entries[i].0 == out[i].0);
                assert(entries[b].0 == out[j].0);
            } else if i == r {
                if replaced {
                    assert(entries[r].0 == key);
                    assert(text::before(entries[r].0, entries[b].0));
                } else if entries[b].0 == key {
                    assert(b > r);
                    assert(text::before(entries[r].0, entries[b].0));
                    assert(false);
                }
            } else {
                assert(entries[i - shift].0 == out[i].0);
                assert(entries[b].0 == out[j].0);
            }
        }
    }
    assert forall|i: int| 0 <= i < out.len() implies (#[trigger] out[i]).1 == value || (exists|k: int|
        0 <= k < entries.len() && entries[k] == out[i]) by {
        if i != r {
            let k = if i < r { i } else { i - shift };
            assert(entries[k] == out[i]);
        }
    }
}

// ---------------------------------------------------------------- records

/// The object with the members `names`, each with the value at its place.
pub open spec fn record_entries(names: Seq<Seq<char>>, values: Seq<JsonView>) -> Seq<(Seq<char>, JsonView)>
    decreases names.len(),
{
    if names.len() == 0 || values.len() != names.len() {
        seq![]
    } else {
        entries_with(
            record_entries(names.drop_last(), values.drop_last()),
            names.last(),
            values.last(),
        )
    }
}

/// The object with the members `names`, each with the value at its place.
pub open spec fn record(names: Seq<Seq<char>>, values: Seq<JsonView>) -> JsonView {
    JsonView::Object(record_entries(names, values))
}

/// The values of a record whose members are among `names`, in that order. A list
/// gives them by place.
pub open spec fn fields(j: JsonView, names: Seq<Seq<char>>) -> Option<Seq<Option<JsonView>>> {
    match j {
        JsonView::Object(entries) => if forall|i: int|
            0 <= i < entries.len() ==> names.contains((#[trigger] entries[i]).0) {
            Some(Seq::new(names.len(), |i: int| entry(entries, names[i])))
        } else {
            None
        },
        JsonView::List(items) => if items.len() <= names.len() {
            Some(
                Seq::new(
                    names.len(),
                    |i: int|
                        if i < items.len() {
                            Some(items[i])
                        } else {
                            None
                        },
                ),
            )
        } else {
            None
        },
        _ => None,
    }
}

/// A record of canonical values is canonical, one level deeper.
pub proof fn lemma_record_canonical(names: Seq<Seq<char>>, values: Seq<JsonView>, depth: nat)
    requires
        names.len() == values.len(),
        forall|i: int| 0 <= i < values.len() ==> canonical(#[trigger] values[i], depth),
    ensures
        canonical(record(names, values), depth + 1),
        ascending(record_entries(names, values)),
    decreases names.len(),
{
    let out = record_entries(names, values);
    if names.len() > 0 {
        let n = names.drop_last();
        let v = values.drop_last();
        let before = record_entries(n, v);
        assert forall|i: int| 0 <= i < v.len() implies canonical(#[trigger] v[i], depth) by {
            assert(v[i] == values[i]);
        }
        lemma_record_canonical(n, v, depth);
        lemma_with(before, names.last(), values.last());
        assert(canonical(values[values.len() - 1], depth));
        assert forall|i: int| 0 <= i < out.len() implies canonical((#[trigger] out[i]).1, depth) by {
            if out[i].1 != values.last() {
                let k = choose|k: int| 0 <= k < before.len() && before[k] == out[i];
                assert(canonical(before[k].1, depth));
            }
        }
    }
    lemma_ascending_distinct(out);
}

/// The object with the members `names`, in that order, each with the value at its place.
pub open spec fn listed(names: Seq<Seq<char>>, values: Seq<JsonView>) -> JsonView {
    JsonView::Object(Seq::new(names.len(), |i: int| (names[i], values[i])))
}

/// A listed object gives the value of each name, and its fields are the values that it
/// was made of; of canonical values it is canonical, one level deeper.
pub proof fn lemma_listed(names: Seq<Seq<char>>, values: Seq<JsonView>, depth: nat)
    requires
        names.len() == values.len(),
        names.no_duplicates(),
        forall|i: int| 0 <= i < values.len() ==> canonical(#[trigger] values[i], depth),
    ensures
        canonical(listed(names, values), depth + 1),
        fields(listed(names, values), names) == Some(Seq::new(values.len(), |i: int| Some(values[i]))),
        forall|i: int| 0 <= i < names.len() ==> listed(names, values).member(#[trigger] names[i]) == Some(values[i]),
{
    let entries = Seq::new(names.len(), |i: int| (names[i], values[i]));
    assert(distinct(entries));
    assert forall|i: int| 0 <= i < names.len() implies entry(entries, #[trigger] names[i]) == Some(values[i]) by {
        lemma_entry_at(entries, i);
    }
    assert(fields(listed(names, values), names)->0 =~= Seq::new(values.len(), |i: int| Some(values[i])));
}

// ---------------------------------------------------------------- the outside library

#[verifier::external_type_specification]
#[verifier::external_body]
pub struct ExValue(serde_json::Value);

#[verifier::external_type_specification]
#[verifier::external_body]
pub struct ExJsonError(serde_json::Error);

/// What a `serde_json::Value` holds: its members in the order in which its map
/// walks them, and every number but the unsigned ones as `Other`.
pub uninterp spec fn held(v: serde_json::Value) -> JsonView;

/// What `serde_json::from_slice` reads from a text, or nothing where it refuses it.
pub uninterp spec fn parsed(bytes: Seq<u8>) -> Option<JsonView>;

/// The value that was read, if one was.
pub open spec fn read_as(r: Result<serde_json::Value, serde_json::Error>) -> Option<JsonView> {
    match r {
        Ok(v) => Some(held(v)),
        Err(_) => None,
    }
}

/// Builds a `serde_json::Value`, one constructor for one. A value none of whose objects
/// names a member twice is held as it is: the map behind an object keeps its members in
/// the order in which they came. Nothing is said of other values.
#[verifier::external_body]
fn to_value(j: &Json) -> (v: serde_json::Value)
    ensures
        forall|depth: nat| #[trigger] canonical(j@, depth) ==> held(v) == j@,
{
    match j {
        Json::Null | Json::Other => serde_json::Value::Null,
        Json::Bool(b) => serde_json::Value::from(*b),
        Json::Unsigned(n) => serde_json::Value::from(*n),
        Json::Text(s) => serde_json::Value::from(s.as_str()),
        Json::List(v) => serde_json::Value::Array(v.iter().map(to_value).collect()),
        Json::Object(v) => serde_json::Value::Object(v.iter().map(|e| (e.0.clone(), to_value(&e.1))).collect()),
    }
}

/// Takes a `serde_json::Value` apart, one constructor for one; `as_u64` tells the
/// numbers that fit an unsigned word from the others.
#[verifier::external_body]
fn from_value(v: serde_json::Value) -> (j: Json)
    ensures
        j@ == held(v),
{
    match v {
        serde_json::Value::Null => Json::Null,
        serde_json::Value::Bool(b) => Json::Bool(b),
        serde_json::Value::Number(n) => n.as_u64().map_or(Json::Other, Json::Unsigned),
        serde_json::Value::String(s) => Json::Text(s),
        serde_json::Value::Array(v) => Json::List(v.into_iter().map(from_value).collect()),
        serde_json::Value::Object(m) => Json::Object(m.into_iter().map(|e| (e.0, from_value(e.1))).collect()),
    }
}

/// Calls `serde_json::from_slice`. What it reads is a function of the bytes. Of a
/// name that an object has twice the last value stands.
#[verifier::external_body]
fn read_value(bytes: &[u8]) -> (r: Result<serde_json::Value, serde_json::Error>)
    ensures
        read_as(r) == parsed(bytes@),
{
    serde_json::from_slice(bytes)
}

/// Calls `serde_json::to_string`, which writes the compact text of the value. It
/// fails for no `Value`, and `serde_json::from_slice` reads the value back from it, as
/// long as it nests less deep than the reader follows.
#[verifier::external_body]
fn write_value(v: &serde_json::Value) -> (r: Result<String, serde_json::Error>)
    ensures
        r is Ok,
        forall|depth: nat|
            #[trigger] canonical(held(*v), depth) ==> r->Ok_0@ == json_text(held(*v)),
        canonical(held(*v), 100) ==> parsed(encode_utf8(r->Ok_0@)) == Some(held(*v)),
{
    serde_json::to_string(v)
}

// ---------------------------------------------------------------- reading and writing

/// Reads a JSON text.
pub fn parse(bytes: &[u8]) -> (r: Option<Json>)
    ensures
        r matches Some(j) ==> parsed(bytes@) == Some(j@),
        r is None ==> parsed(bytes@) is None,
{
    match read_value(bytes) {
        Ok(v) => Some(from_value(v)),
        Err(_) => None,
    }
}

/// The compact text of a canonical value.
pub fn render(j: &Json) -> (s: String)
    requires
        canonical(j@, 100),
    ensures
        s@ == json_text(j@),
        parsed(encode_utf8(s@)) == Some(j@),
{
    let v = to_value(j);
    match write_value(&v) {
        Ok(s) => s,
        Err(_) => String::new(),
    }
}

// ---------------------------------------------------------------- members

impl Json {
    /// The value under `key`, of an object that has one.
    pub fn get(&self, key: &str) -> (r: Option<&Json>)
        ensures
            match r {
                Some(j) => self@.member(key@) == Some(j@),
                None => self@.member(key@) is None,
            },
    {
        broadcast use lemma_object_view;

        match self {
            Json::Object(entries) => {
                let ghost all = entries_view(entries@);
                let mut i: usize = 0;
                assert(all.skip(0) =~= all);
                while i < entries.len()
                    invariant
                        i <= entries@.len(),
                        all == entries_view(entries@),
                        self@ == JsonView::Object(all),
                        entry(all, key@) == entry(all.skip(i as int), key@),
                    decreases entries.len() - i,
                {
                    assert(all.skip(i as int)[0] == all[i as int]);
                    if text::same(entries[i].0.as_str(), key) {
                        return Some(&entries[i].1);
                    }
                    assert(all.skip(i as int).drop_first() =~= all.skip(i + 1));
                    i = i + 1;
                }
                None
            },
            _ => None,
        }
    }

    /// A copy of the string under `key`.
    pub fn text_at(&self, key: &str) -> (r: Option<String>)
        ensures
            match r {
                Some(s) => self@.text_at(key@) == Some(s@),
                None => self@.text_at(key@) is None,
            },
    {
        match self.get(key) {
            Some(Json::Text(s)) => Some(text::copy(s)),
            _ => None,
        }
    }

    /// The unsigned number under `key`.
    pub fn number_at(&self, key: &str) -> (r: Option<u64>)
        ensures
            r == self@.number_at(key@),
    {
        match self.get(key) {
            Some(Json::Unsigned(n)) => Some(*n),
            _ => None,
        }
    }

    /// The truth value under `key`, or false.
    pub fn flag_at(&self, key: &str) -> (r: bool)
        ensures
            r == self@.flag_at(key@),
    {
        match self.get(key) {
            Some(Json::Bool(b)) => *b,
            _ => false,
        }
    }

    /// The object with `key` set to `value`; other values stay as they are.
    pub fn with(self, key: &str, value: Json) -> (r: Json)
        ensures
            r@ == self@.with(key@, value@),
    {
        broadcast use {lemma_object_view, lemma_list_view};

        match self {
            Json::Object(mut entries) => {
                let ghost all = entries_view(entries@);
                let mut p: usize = 0;
                assert(all.skip(0) =~= all);
                while p < entries.len() && !text::same(entries[p].0.as_str(), key)
                    invariant
                        p <= entries@.len(),
                        all == entries_view(entries@),
                        place(all, key@) == p + place(all.skip(p as int), key@),
                    decreases entries.len() - p,
                {
                    assert(all.skip(p as int)[0] == all[p as int]);
                    assert(all.skip(p as int).drop_first() =~= all.skip(p + 1));
                    p = p + 1;
                }
                proof {
                    if p < all.len() {
                        assert(all.skip(p as int)[0] == all[p as int]);
                    }
                }
                assert(place(all, key@) == p);
                if p < entries.len() {
                    entries[p] = (key.to_owned(), value);
                    assert(entries_view(entries@) =~= entries_with(all, key@, value@));
                    return Json::Object(entries);
                }
                let mut i: usize = 0;
                while i < entries.len() && text::comes_before(entries[i].0.as_str(), key)
                    invariant
                        i <= entries@.len(),
                        all == entries_view(entries@),
                        rank(all, key@) == i + rank(all.skip(i as int), key@),
                    decreases entries.len() - i,
                {
                    assert(all.skip(i as int)[0] == all[i as int]);
                    assert(all.skip(i as int).drop_first() =~= all.skip(i + 1));
                    i = i + 1;
                }
                proof {
                    if i < all.len() {
                        assert(all.skip(i as int)[0] == all[i as int]);
                    }
                }
                assert(rank(all, key@) == i);
                entries.insert(i, (key.to_owned(), value));
                assert(entries_view(entries@) =~= entries_with(all, key@, value@));
                Json::Object(entries)
            },
            other => other,
        }
    }
}

/// The names in a list of names.
pub open spec fn names_view(names: Seq<&str>) -> Seq<Seq<char>> {
    Seq::new(names.len(), |i: int| names[i]@)
}

/// The values of fields that may be absent.
pub open spec fn fields_view(v: Seq<Option<&Json>>) -> Seq<Option<JsonView>> {
    Seq::new(
        v.len(),
        |i: int|
            match v[i] {
                Some(j) => Some(j@),
                None => None,
            },
    )
}

/// An object with the members `names`, each with the value at its place.
pub fn make_record(names: Vec<&str>, values: Vec<Json>) -> (r: Json)
    requires
        names@.len() == values@.len(),
    ensures
        r@ == record(names_view(names@), items_view(values@)),
{
    broadcast use lemma_object_view;

    let mut values = values;
    let ghost all = items_view(values@);
    let ghost keys = names_view(names@);
    let mut out = Json::Object(Vec::new());
    let mut reversed: Vec<Json> = Vec::new();
    assert(out@->Object_0 =~= record_entries(keys.take(0), all.take(0)));
    let mut i: usize = 0;
    while i < names.len()
        invariant
            i <= names@.len(),
            names@.len() == all.len(),
            keys == names_view(names@),
            values@.len() == names@.len() - i,
            items_view(values@) =~= all.skip(i as int),
            out@ == record(keys.take(i as int), all.take(i as int)),
        decreases names.len() - i,
    {
        let ghost before = values@;
        let v = values.remove(0);
        assert(v@ == all[i as int]) by {
            assert(items_view(before)[0] == all.skip(i as int)[0]);
        }
        assert(items_view(values@) =~= all.skip(i + 1)) by {
            assert forall|k: int| 0 <= k < values@.len() implies items_view(values@)[k] == all.skip(i + 1)[k] by {
                assert(values@[k] == before[k + 1]);
                assert(items_view(before)[k + 1] == all.skip(i as int)[k + 1]);
            }
        }
        out = out.with(names[i], v);
        assert(keys.take(i + 1).drop_last() =~= keys.take(i as int));
        assert(all.take(i + 1).drop_last() =~= all.take(i as int));
        assert(keys.take(i + 1).last() == names@[i as int]@);
        i = i + 1;
    }
    assert(keys.take(i as int) =~= keys);
    assert(all.take(i as int) =~= all);
    out
}

/// An object with the members `names`, in that order, each with the value at its place.
pub fn make_listed(names: Vec<&str>, values: Vec<Json>) -> (r: Json)
    requires
        names@.len() == values@.len(),
    ensures
        r@ == listed(names_view(names@), items_view(values@)),
{
    broadcast use lemma_object_view;

    let mut values = values;
    let ghost all = items_view(values@);
    let ghost keys = names_view(names@);
    let ghost wanted = Seq::new(keys.len(), |k: int| (keys[k], all[k]));
    let mut entries: Vec<(String, Json)> = Vec::new();
    let mut i: usize = 0;
    while i < names.len()
        invariant
            i <= names@.len(),
            names@.len() == all.len(),
            keys == names_view(names@),
            wanted == Seq::new(keys.len(), |k: int| (keys[k], all[k])),
            values@.len() == names@.len() - i,
            items_view(values@) =~= all.skip(i as int),
            entries@.len() == i,
            forall|k: int| 0 <= k < i ==> #[trigger] entries_view(entries@)[k] == wanted[k],
        decreases names.len() - i,
    {
        let ghost before = values@;
        let ghost was = entries@;
        let v = values.remove(0);
        assert(v@ == all[i as int]) by {
            assert(items_view(before)[0] == all.skip(i as int)[0]);
        }
        assert(items_view(values@) =~= all.skip(i + 1)) by {
            assert forall|k: int| 0 <= k < values@.len() implies items_view(values@)[k] == all.skip(i + 1)[k] by {
                assert(values@[k] == before[k + 1]);
                assert(items_view(before)[k + 1] == all.skip(i as int)[k + 1]);
            }
        }
        entries.push((names[i].to_owned(), v));
        assert forall|k: int| 0 <= k < i + 1 implies #[trigger] entries_view(entries@)[k] == wanted[k] by {
            if k < i {
                assert(entries@[k] == was[k]);
                assert(entries_view(was)[k] == wanted[k]);
            }
        }
        i = i + 1;
    }
    assert(entries_view(entries@) =~= wanted);
    Json::Object(entries)
}

/// Whether `key` is one of the names.
fn among(key: &str, names: &Vec<&str>) -> (r: bool)
    ensures
        r == names_view(names@).contains(key@),
{
    let ghost keys = names_view(names@);
    let mut i: usize = 0;
    while i < names.len()
        invariant
            i <= names@.len(),
            keys == names_view(names@),
            forall|k: int| 0 <= k < i ==> keys[k] != key@,
        decreases names.len() - i,
    {
        if text::same(names[i], key) {
            assert(keys[i as int] == key@);
            return true;
        }
        i = i + 1;
    }
    false
}

/// The fields of a record whose members are among `names`, in that order.
pub fn take_fields<'a>(j: &'a Json, names: &Vec<&str>) -> (r: Option<Vec<Option<&'a Json>>>)
    ensures
        match r {
            Some(v) => fields(j@, names_view(names@)) == Some(fields_view(v@)),
            None => fields(j@, names_view(names@)) is None,
        },
        r matches Some(v) ==> v@.len() == names@.len(),
{
    broadcast use {lemma_object_view, lemma_list_view};

    let ghost keys = names_view(names@);
    match j {
        Json::Object(entries) => {
            let ghost all = entries_view(entries@);
            let mut i: usize = 0;
            while i < entries.len()
                invariant
                    i <= entries@.len(),
                    keys == names_view(names@),
                    all == entries_view(entries@),
                    j@ == JsonView::Object(all),
                    forall|k: int| 0 <= k < i ==> keys.contains((#[trigger] all[k]).0),
                decreases entries.len() - i,
            {
                if !among(entries[i].0.as_str(), names) {
                    assert(!keys.contains(all[i as int].0));
                    return None;
                }
                assert(keys.contains(all[i as int].0));
                i = i + 1;
            }
            let mut out: Vec<Option<&'a Json>> = Vec::new();
            let mut k: usize = 0;
            while k < names.len()
                invariant
                    k <= names@.len(),
                    keys == names_view(names@),
                    j@ == JsonView::Object(all),
                    out@.len() == k,
                    forall|m: int| 0 <= m < k ==> #[trigger] fields_view(out@)[m] == entry(all, keys[m]),
                decreases names.len() - k,
            {
                let ghost before = out@;
                out.push(j.get(names[k]));
                assert forall|m: int| 0 <= m < k + 1 implies #[trigger] fields_view(out@)[m] == entry(all, keys[m]) by {
                    if m < k {
                        assert(fields_view(before)[m] == entry(all, keys[m]));
                        assert(out@[m] == before[m]);
                    }
                }
                k = k + 1;
            }
            assert(fields_view(out@) =~= fields(j@, keys)->0);
            Some(out)
        },
        Json::List(items) => {
            if items.len() > names.len() {
                return None;
            }
            let mut out: Vec<Option<&'a Json>> = Vec::new();
            let mut k: usize = 0;
            while k < names.len()
                invariant
                    k <= names@.len(),
                    items@.len() <= names@.len(),
                    out@.len() == k,
                    forall|m: int|
                        0 <= m < k ==> #[trigger] fields_view(out@)[m] == (if m < items@.len() {
                            Some(items@[m]@)
                        } else {
                            None
                        }),
                decreases names.len() - k,
            {
                let ghost before = out@;
                if k < items.len() {
                    out.push(Some(&items[k]));
                } else {
                    out.push(None);
                }
                assert forall|m: int| 0 <= m < k + 1 implies #[trigger] fields_view(out@)[m] == (if m < items@.len() {
                    Some(items@[m]@)
                } else {
                    None
                }) by {
                    if m < k {
                        assert(fields_view(before)[m] == fields_view(out@)[m]);
                    }
                }
                k = k + 1;
            }
            assert(fields_view(out@) =~= fields(j@, keys)->0);
            Some(out)
        },
        _ => None,
    }
}

} // verus!
