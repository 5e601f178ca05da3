//! JSON texts in which no object names a member twice.
use crate::json;
use crate::json::{Json, JsonView};
use crate::text;
use vstd::prelude::*;
use vstd::utf8::*;

verus! {

/// The colons of a JSON text that stand outside its strings: one for each member that an
/// object names. `inside` says that the text starts inside a string, and `skip` that its
/// first character there is an escaped one.
pub open spec fn colons(bytes: Seq<u8>, inside: bool, skip: bool) -> nat
    decreases bytes.len(),
{
    if bytes.len() == 0 {
        0
    } else {
        let rest = bytes.drop_first();
        if inside {
            if skip {
                colons(rest, true, false)
            } else {
                colons(rest, bytes[0] != 0x22, bytes[0] == 0x5c)
            }
        } else if bytes[0] == 0x3a {
            1 + colons(rest, false, false)
        } else {
            colons(rest, bytes[0] == 0x22, false)
        }
    }
}

/// The members of all the objects in a value.
pub open spec fn members(j: JsonView) -> nat
    decreases j,
{
    match j {
        JsonView::List(items) => items_members(items),
        JsonView::Object(entries) => entries_members(entries),
        _ => 0,
    }
}

/// The members of all the objects in a list of values.
pub open spec fn items_members(items: Seq<JsonView>) -> nat
    decreases items,
{
    if items.len() == 0 {
        0
    } else {
        members(items[0]) + items_members(items.subrange(1, items.len() as int))
    }
}

/// The members in a list of members, and those of all the objects in their values.
pub open spec fn entries_members(entries: Seq<(Seq<char>, JsonView)>) -> nat
    decreases entries,
{
    if entries.len() == 0 {
        0
    } else {
        1 + members(entries[0].1) + entries_members(entries.subrange(1, entries.len() as int))
    }
}

/// The value that a JSON text stands for, where none of its objects names a member twice:
/// the value has as many members as the text names.
pub open spec fn read_once(bytes: Seq<u8>) -> Option<JsonView> {
    match json::parsed(bytes) {
        Some(j) => if colons(bytes, false, false) == members(j) {
            Some(j)
        } else {
            None
        },
        None => None,
    }
}

// ---------------------------------------------------------------- names by their depth

/// Where a walk through a JSON text is: how many objects and lists it is in, whether it is
/// inside a string and behind a backslash there, and where the last string began and ended.
pub struct Walk {
    pub depth: nat,
    pub inside: bool,
    pub skip: bool,
    pub from: int,
    pub to: int,
}

/// The walk through the leading bytes of a text.
pub open spec fn walked(bytes: Seq<u8>, n: int) -> Walk
    decreases n,
{
    if n <= 0 {
        Walk { depth: 0, inside: false, skip: false, from: 0, to: 0 }
    } else {
        let w = walked(bytes, n - 1);
        let b = bytes[n - 1];
        if w.inside {
            if w.skip {
                Walk { skip: false, ..w }
            } else if b == 0x22 {
                Walk { inside: false, to: n, ..w }
            } else {
                Walk { skip: b == 0x5c, ..w }
            }
        } else if b == 0x22 {
            Walk { inside: true, skip: false, from: n - 1, ..w }
        } else if b == 0x7b || b == 0x5b {
            Walk { depth: w.depth + 1, ..w }
        } else if b == 0x7d || b == 0x5d {
            Walk { depth: (if w.depth == 0 { 0 } else { w.depth - 1 }) as nat, ..w }
        } else {
            w
        }
    }
}

/// Whether the byte at a place is the colon behind a name, in so many objects and lists.
pub open spec fn names_at(bytes: Seq<u8>, i: int, depth: nat) -> bool {
    bytes[i] == 0x3a && !walked(bytes, i).inside && walked(bytes, i).depth == depth
}

/// Whether the byte at a place is the colon behind a name that reads as `name`.
pub open spec fn names_so(bytes: Seq<u8>, i: int, depth: nat, name: Seq<char>) -> bool {
    &&& names_at(bytes, i, depth)
    &&& json::parsed(bytes.subrange(walked(bytes, i).from, walked(bytes, i).to)) == Some(JsonView::Text(name))
}

/// How many names stand, in so many objects and lists, among the leading bytes.
pub open spec fn names(bytes: Seq<u8>, n: int, depth: nat) -> nat
    decreases n,
{
    if n <= 0 {
        0
    } else {
        names(bytes, n - 1, depth) + (if names_at(bytes, n - 1, depth) {
            1nat
        } else {
            0
        })
    }
}

/// How many names that read as `name` stand, in so many objects and lists, among the leading
/// bytes.
pub open spec fn names_like(bytes: Seq<u8>, n: int, depth: nat, name: Seq<char>) -> nat
    decreases n,
{
    if n <= 0 {
        0
    } else {
        names_like(bytes, n - 1, depth, name) + (if names_so(bytes, n - 1, depth, name) {
            1nat
        } else {
            0
        })
    }
}

/// The members of the outermost object.
pub open spec fn outermost(j: JsonView) -> nat {
    match j {
        JsonView::Object(entries) => entries.len(),
        _ => 0,
    }
}

/// Whether the text of a value names no member of the outermost object twice, and `name` at
/// most once in what stands directly in it.
pub open spec fn named_once(bytes: Seq<u8>, j: JsonView, name: Seq<char>) -> bool {
    &&& names(bytes, bytes.len() as int, 1) == outermost(j)
    &&& names_like(bytes, bytes.len() as int, 2, name) <= 1
}

// ---------------------------------------------------------------- what is known

/// The colons of a text outside its strings, character by character.
spec fn colons_in(s: Seq<char>, inside: bool, skip: bool) -> nat
    decreases s.len(),
{
    if s.len() == 0 {
        0
    } else {
        let rest = s.drop_first();
        if inside {
            if skip {
                colons_in(rest, true, false)
            } else {
                colons_in(rest, s[0] != '"', s[0] == '\\')
            }
        } else if s[0] == ':' {
            1 + colons_in(rest, false, false)
        } else {
            colons_in(rest, s[0] == '"', false)
        }
    }
}

/// Bytes beyond ASCII neither end a string nor begin one.
proof fn lemma_high_bytes(high: Seq<u8>, rest: Seq<u8>, inside: bool, skip: bool)
    requires
        high.len() > 0,
        forall|i: int| 0 <= i < high.len() ==> #[trigger] high[i] >= 0x80,
    ensures
        colons(high + rest, inside, skip) == colons(rest, inside, false),
    decreases high.len(),
{
    let all = high + rest;
    assert(all[0] == high[0]);
    assert(all.drop_first() =~= high.drop_first() + rest);
    if high.len() > 1 {
        lemma_high_bytes(high.drop_first(), rest, inside, false);
    } else {
        assert(high.drop_first() + rest =~= rest);
    }
}

/// A character beyond ASCII is written with bytes beyond ASCII.
proof fn lemma_high_scalar(c: u32)
    requires
        c >= 0x80,
    ensures
        encode_scalar(c).len() > 0,
        forall|i: int| 0 <= i < encode_scalar(c).len() ==> #[trigger] encode_scalar(c)[i] >= 0x80,
{
    assert(0xC0u8 | (((c >> 6) & 0x1F) as u8) >= 0x80) by (bit_vector);
    assert(0xE0u8 | (((c >> 12) & 0x0F) as u8) >= 0x80) by (bit_vector);
    assert(0xF0u8 | (((c >> 18) & 0x7) as u8) >= 0x80) by (bit_vector);
    assert(0x80u8 | ((c & 0x3F) as u8) >= 0x80) by (bit_vector);
    assert(0x80u8 | (((c >> 6) & 0x3F) as u8) >= 0x80) by (bit_vector);
    assert(0x80u8 | (((c >> 12) & 0x3F) as u8) >= 0x80) by (bit_vector);
}

/// The colons of a text are those of its bytes.
proof fn lemma_colons_of_bytes(s: Seq<char>, inside: bool, skip: bool)
    ensures
        colons(encode_utf8(s), inside, skip) == colons_in(s, inside, skip),
    decreases s.len(),
{
    if s.len() > 0 {
        let first: char = s[0];
        let c = first as u32;
        let rest = encode_utf8(s.drop_first());
        let all = encode_scalar(c) + rest;
        let then_inside = if inside {
            skip || first != '"'
        } else {
            first == '"'
        };
        let then_skip = inside && !skip && first == '\\';
        let here: nat = if !inside && first == ':' { 1 } else { 0 };
        char_u32_cast(first, c);
        assert(0x22u32 as char == '"' && 0x5cu32 as char == '\\' && 0x3au32 as char == ':');
        if c < 0x80 {
            assert(c & 0x7F == c) by (bit_vector)
                requires
                    c < 0x80,
            ;
            assert(all.drop_first() =~= rest);
            assert(all[0] == c as u8);
        } else {
            lemma_high_scalar(c);
            lemma_high_bytes(encode_scalar(c), rest, inside, skip);
        }
        assert(encode_utf8(s) == all);
        assert(colons(all, inside, skip) == here + colons(rest, then_inside, then_skip));
        lemma_colons_of_bytes(s.drop_first(), then_inside, then_skip);
        assert(colons_in(s, inside, skip) == here + colons_in(s.drop_first(), then_inside, then_skip));
    }
}

/// A character as it stands inside a JSON string stays inside it.
proof fn lemma_escaped(c: char, rest: Seq<char>)
    ensures
        colons_in(json::escaped(c) + rest, true, false) == colons_in(rest, true, false),
{
    reveal_with_fuel(colons_in, 7);
    let e = json::escaped(c);
    let all = e + rest;
    assert(all.drop_first() =~= e.drop_first() + rest);
    if e.len() == 1 {
        assert(all.drop_first() =~= rest);
    } else if e.len() == 2 {
        assert(all.drop_first().drop_first() =~= rest);
    } else {
        assert(all.drop_first().drop_first().drop_first().drop_first().drop_first().drop_first() =~= rest);
    }
}

/// A string as it stands inside quotes stays inside them.
proof fn lemma_all_escaped(s: Seq<char>, rest: Seq<char>)
    ensures
        colons_in(json::all_escaped(s) + rest, true, false) == colons_in(rest, true, false),
    decreases s.len(),
{
    if s.len() > 0 {
        let tail = json::all_escaped(s.drop_first());
        assert(json::all_escaped(s) + rest =~= json::escaped(s[0]) + (tail + rest));
        lemma_escaped(s[0], tail + rest);
        lemma_all_escaped(s.drop_first(), rest);
    } else {
        assert(json::all_escaped(s) + rest =~= rest);
    }
}

/// A JSON string holds no colon that counts.
proof fn lemma_quoted(s: Seq<char>, rest: Seq<char>)
    ensures
        colons_in(json::quoted(s) + rest, false, false) == colons_in(rest, false, false),
{
    let quote = seq!['"'];
    let after = quote + rest;
    let all = json::quoted(s) + rest;
    assert(all.drop_first() =~= json::all_escaped(s) + after);
    lemma_all_escaped(s, after);
    assert(after.drop_first() =~= rest);
}

/// Characters that neither quote nor name a member count for nothing.
proof fn lemma_plain(s: Seq<char>, rest: Seq<char>)
    requires
        forall|i: int| 0 <= i < s.len() ==> #[trigger] s[i] != '"' && s[i] != ':',
    ensures
        colons_in(s + rest, false, false) == colons_in(rest, false, false),
    decreases s.len(),
{
    if s.len() > 0 {
        assert((s + rest)[0] == s[0]);
        assert((s + rest).drop_first() =~= s.drop_first() + rest);
        lemma_plain(s.drop_first(), rest);
    } else {
        assert(s + rest =~= rest);
    }
}

/// A numeral is made of digits.
proof fn lemma_decimal(n: nat)
    ensures
        forall|i: int|
            0 <= i < text::decimal(n).len() ==> #[trigger] text::decimal(n)[i] != '"' && text::decimal(n)[i] != ':',
    decreases n,
{
    if n >= 10 {
        lemma_decimal(n / 10);
        let tens = text::decimal(n / 10);
        assert forall|i: int| 0 <= i < text::decimal(n).len() implies #[trigger] text::decimal(n)[i] != '"'
            && text::decimal(n)[i] != ':' by {
            if i < tens.len() {
                assert(text::decimal(n)[i] == tens[i]);
            }
        }
    }
}

/// The text of a value names as many members as the value has.
proof fn lemma_text_names_members(j: JsonView, rest: Seq<char>)
    ensures
        colons_in(json::json_text(j) + rest, false, false) == members(j) + colons_in(rest, false, false),
    decreases j,
{
    match j {
        JsonView::Text(s) => {
            lemma_quoted(s, rest);
        },
        JsonView::List(items) => {
            let after = seq![']'] + rest;
            assert(json::json_text(j) + rest =~= seq!['['] + (json::items_text(items) + after));
            lemma_plain(seq!['['], json::items_text(items) + after);
            lemma_items_name_members(items, after);
            lemma_plain(seq![']'], rest);
        },
        JsonView::Object(entries) => {
            let after = seq!['}'] + rest;
            assert(json::json_text(j) + rest =~= seq!['{'] + (json::entries_text(entries) + after));
            lemma_plain(seq!['{'], json::entries_text(entries) + after);
            lemma_entries_name_members(entries, after);
            lemma_plain(seq!['}'], rest);
        },
        JsonView::Unsigned(n) => {
            lemma_decimal(n as nat);
            lemma_plain(json::json_text(j), rest);
        },
        _ => {
            lemma_plain(json::json_text(j), rest);
        },
    }
}

/// The text of a list of values names as many members as the values have.
proof fn lemma_items_name_members(items: Seq<JsonView>, rest: Seq<char>)
    ensures
        colons_in(json::items_text(items) + rest, false, false) == items_members(items) + colons_in(
            rest,
            false,
            false,
        ),
    decreases items,
{
    if items.len() == 0 {
        assert(json::items_text(items) + rest =~= rest);
    } else if items.len() == 1 {
        lemma_text_names_members(items[0], rest);
        assert(items_members(items.subrange(1, 1)) == 0);
    } else {
        let tail = items.subrange(1, items.len() as int);
        let after = seq![','] + (json::items_text(tail) + rest);
        assert(json::items_text(items) + rest =~= json::json_text(items[0]) + after);
        lemma_text_names_members(items[0], after);
        lemma_plain(seq![','], json::items_text(tail) + rest);
        lemma_items_name_members(tail, rest);
    }
}

/// The text of a list of members names them, and as many more as their values have.
proof fn lemma_entries_name_members(entries: Seq<(Seq<char>, JsonView)>, rest: Seq<char>)
    ensures
        colons_in(json::entries_text(entries) + rest, false, false) == entries_members(entries) + colons_in(
            rest,
            false,
            false,
        ),
    decreases entries,
{
    if entries.len() == 0 {
        assert(json::entries_text(entries) + rest =~= rest);
    } else {
        let tail = entries.subrange(1, entries.len() as int);
        let after = if entries.len() == 1 {
            rest
        } else {
            seq![','] + (json::entries_text(tail) + rest)
        };
        let value = json::json_text(entries[0].1) + after;
        let named = seq![':'] + value;
        assert(json::entries_text(entries) + rest =~= json::quoted(entries[0].0) + named);
        lemma_quoted(entries[0].0, named);
        assert(named.drop_first() =~= value);
        lemma_text_names_members(entries[0].1, after);
        if entries.len() > 1 {
            lemma_plain(seq![','], json::entries_text(tail) + rest);
            lemma_entries_name_members(tail, rest);
        } else {
            assert(entries_members(tail) == 0);
        }
    }
}

/// The compact text of a value names as many members as the value has: where the value is
/// read back from it, that is no text that names a member twice.
pub proof fn law_written_names_are_apart(j: JsonView)
    requires
        json::parsed(encode_utf8(json::json_text(j))) == Some(j),
    ensures
        read_once(encode_utf8(json::json_text(j))) == Some(j),
{
    lemma_colons_of_bytes(json::json_text(j), false, false);
    lemma_text_names_members(j, seq![]);
    assert(json::json_text(j) + seq![] =~= json::json_text(j));
}

/// A text is read only where as many members are read as it names: of a text that names a member
/// twice, where one of the two is all that is left, nothing is taken.
pub proof fn law_a_member_named_twice_is_noticed(written: JsonView, read: JsonView)
    requires
        json::parsed(encode_utf8(json::json_text(written))) == Some(read),
    ensures
        members(read) == members(written) ==> read_once(encode_utf8(json::json_text(written))) == Some(read),
        members(read) != members(written) ==> read_once(encode_utf8(json::json_text(written))) is None,
{
    lemma_colons_of_bytes(json::json_text(written), false, false);
    lemma_text_names_members(written, seq![]);
    assert(json::json_text(written) + seq![] =~= json::json_text(written));
}

/// The members of an object are its own and those of what it holds.
pub proof fn law_members_are_counted(entries: Seq<(Seq<char>, JsonView)>, name: Seq<char>, value: JsonView)
    ensures
        members(JsonView::Object(seq![])) == 0,
        members(JsonView::Object(seq![(name, value)] + entries)) == 1 + members(value) + members(
            JsonView::Object(entries),
        ),
        !(value is Object) && !(value is List) ==> members(value) == 0,
        members(JsonView::List(seq![])) == 0,
{
    let all = seq![(name, value)] + entries;
    assert(all.subrange(1, all.len() as int) =~= entries);
}

// ---------------------------------------------------------------- reading

/// The colons of a JSON text that stand outside its strings.
fn count_colons(bytes: &[u8]) -> (n: usize)
    ensures
        n == colons(bytes@, false, false),
{
    let mut n: usize = 0;
    let mut i: usize = 0;
    let mut inside = false;
    let mut skip = false;
    assert(bytes@.skip(0) =~= bytes@);
    while i < bytes.len()
        invariant
            n <= i <= bytes@.len(),
            n + colons(bytes@.skip(i as int), inside, skip) == colons(bytes@, false, false),
        decreases bytes.len() - i,
    {
        assert(bytes@.skip(i as int)[0] == bytes@[i as int]);
        assert(bytes@.skip(i as int).drop_first() =~= bytes@.skip(i + 1));
        let b: u8 = bytes[i];
        if inside {
            if skip {
                skip = false;
            } else {
                inside = b != 0x22;
                skip = b == 0x5c;
            }
        } else {
            if b == 0x3a {
                n = n + 1;
            }
            inside = b == 0x22;
            skip = false;
        }
        i = i + 1;
    }
    assert(bytes@.skip(i as int).len() == 0);
    n
}

/// What is left of a number once the members of all the objects in a value are taken off
/// it, if it is large enough.
fn less_members(j: &Json, from: usize) -> (r: Option<usize>)
    ensures
        match r {
            Some(n) => n + members(j@) == from,
            None => members(j@) > from,
        },
    decreases j,
{
    broadcast use {json::lemma_list_view, json::lemma_object_view};

    match j {
        Json::List(v) => {
            let ghost all = json::items_view(v@);
            let mut left: usize = from;
            let mut i: usize = 0;
            assert(all.skip(0) =~= all);
            while i < v.len()
                invariant
                    i <= v@.len(),
                    all == json::items_view(v@),
                    j@ == JsonView::List(all),
                    left + members(j@) == from + items_members(all.skip(i as int)),
                    decreases_to!(j => v@),
                decreases v.len() - i,
            {
                assert(all.skip(i as int)[0] == all[i as int]);
                assert(all.skip(i as int).subrange(1, all.len() - i) =~= all.skip(i + 1));
                match less_members(&v[i], left) {
                    Some(n) => {
                        left = n;
                    },
                    None => {
                        return None;
                    },
                }
                i = i + 1;
            }
            Some(left)
        },
        Json::Object(v) => {
            let ghost all = json::entries_view(v@);
            let mut left: usize = from;
            let mut i: usize = 0;
            assert(all.skip(0) =~= all);
            while i < v.len()
                invariant
                    i <= v@.len(),
                    all == json::entries_view(v@),
                    j@ == JsonView::Object(all),
                    left + members(j@) == from + entries_members(all.skip(i as int)),
                    decreases_to!(j => v@),
                decreases v.len() - i,
            {
                assert(all.skip(i as int)[0] == all[i as int]);
                assert(all.skip(i as int).subrange(1, all.len() - i) =~= all.skip(i + 1));
                if left == 0 {
                    return None;
                }
                match less_members(&v[i].1, left - 1) {
                    Some(n) => {
                        left = n;
                    },
                    None => {
                        return None;
                    },
                }
                i = i + 1;
            }
            Some(left)
        },
        _ => Some(from),
    }
}

/// Whether the text of a value names as many members as the value has.
pub fn is_once(bytes: &[u8], j: &Json) -> (r: bool)
    ensures
        r == (colons(bytes@, false, false) == members(j@)),
{
    match less_members(j, count_colons(bytes)) {
        Some(0) => true,
        _ => false,
    }
}

/// Reads a JSON text in which no object names a member twice.
pub fn parse_once(bytes: &[u8]) -> (r: Option<Json>)
    ensures
        match r {
            Some(j) => read_once(bytes@) == Some(j@),
            None => read_once(bytes@) is None,
        },
{
    match json::parse(bytes) {
        Some(j) => {
            if is_once(bytes, &j) {
                Some(j)
            } else {
                None
            }
        },
        None => None,
    }
}

/// Whether a JSON text reads as a string.
fn reads_as(bytes: &[u8], name: &str) -> (r: bool)
    ensures
        r == (json::parsed(bytes@) == Some(JsonView::Text(name@))),
{
    match json::parse(bytes) {
        Some(Json::Text(s)) => text::same(s.as_str(), name),
        _ => false,
    }
}

/// Whether the text of a value names no member of the outermost object twice, and `name` at
/// most once in what stands directly in it.
pub fn is_named_once(bytes: &[u8], j: &Json, name: &str) -> (r: bool)
    ensures
        r == named_once(bytes@, j@, name@),
{
    broadcast use json::lemma_object_view;

    let mut depth: usize = 0;
    let mut inside = false;
    let mut skip = false;
    let mut from: usize = 0;
    let mut to: usize = 0;
    let mut outer: usize = 0;
    let mut like: usize = 0;
    let mut i: usize = 0;
    while i < bytes.len()
        invariant
            i <= bytes@.len(),
            depth <= i,
            outer <= i,
            like <= i,
            inside ==> from < i,
            !inside ==> from <= to <= i,
            walked(bytes@, i as int) == (Walk {
                depth: depth as nat,
                inside,
                skip,
                from: from as int,
                to: to as int,
            }),
            outer == names(bytes@, i as int, 1),
            like == names_like(bytes@, i as int, 2, name@),
        decreases bytes.len() - i,
    {
        let b: u8 = bytes[i];
        if inside {
            if skip {
                skip = false;
            } else if b == 0x22 {
                inside = false;
                to = i + 1;
            } else {
                skip = b == 0x5c;
            }
        } else if b == 0x22 {
            inside = true;
            skip = false;
            from = i;
        } else if b == 0x7b || b == 0x5b {
            depth = depth + 1;
        } else if b == 0x7d || b == 0x5d {
            if depth > 0 {
                depth = depth - 1;
            }
        } else if b == 0x3a {
            if depth == 1 {
                outer = outer + 1;
            } else if depth == 2 {
                if reads_as(vstd::slice::slice_subrange(bytes, from, to), name) {
                    like = like + 1;
                }
            }
        }
        i = i + 1;
    }
    let members: usize = match j {
        Json::Object(entries) => entries.len(),
        _ => 0,
    };
    assert(members == outermost(j@));
    outer == members && like <= 1
}

} // verus!
