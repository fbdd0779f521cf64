//! HTTP headers: what `http` accepts as one, and what a `HeaderMap` holds.

use http::{HeaderMap, HeaderName, HeaderValue};
use vstd::prelude::*;

verus! {

/// How many different names a header map takes whatever they are, with any number of
/// values each. Beyond that it depends on how the names hash whether there is room for
/// another value.
pub const SURE_HEADERS: usize = 6553;

/// One value of a header, with the header's name.
pub type Entry = (Seq<char>, Seq<u8>);

// ---- names and values ----

/// Whether `b` may stand in a token: a letter, a digit, or one of
/// ``!#$%&'*+-.^_`|~``.
pub open spec fn is_token_byte(b: u8) -> bool {
    ||| 65 <= b <= 90
    ||| 97 <= b <= 122
    ||| 48 <= b <= 57
    ||| b == 33
    ||| 35 <= b <= 39
    ||| b == 42
    ||| b == 43
    ||| b == 45
    ||| b == 46
    ||| 94 <= b <= 96
    ||| b == 124
    ||| b == 126
}

/// Whether `bytes` are a token: not empty, and made of token bytes.
pub open spec fn is_token(bytes: Seq<u8>) -> bool {
    &&& bytes.len() > 0
    &&& forall|i: int| 0 <= i < bytes.len() ==> is_token_byte(#[trigger] bytes[i])
}

/// Whether `bytes` name a header: a token of at most 65535 bytes.
pub open spec fn is_name(bytes: Seq<u8>) -> bool {
    is_token(bytes) && bytes.len() <= 65535
}

/// The name that a header map holds for `bytes`: letters in lower case.
pub open spec fn name_of(bytes: Seq<u8>) -> Seq<char> {
    Seq::new(
        bytes.len(),
        |i: int|
            if 65 <= bytes[i] <= 90 {
                (bytes[i] + 32) as char
            } else {
                bytes[i] as char
            },
    )
}

/// Whether `bytes` may be the value of a header: no control characters but tabs.
pub open spec fn is_value(bytes: Seq<u8>) -> bool {
    forall|i: int|
        0 <= i < bytes.len() ==> (#[trigger] bytes[i] >= 32 && bytes[i] != 127) || bytes[i] == 9
}

/// Whether a value is made of visible ASCII, spaces and tabs, and so can be read as
/// text.
pub open spec fn is_visible(value: Seq<u8>) -> bool {
    forall|i: int|
        0 <= i < value.len() ==> 32 <= #[trigger] value[i] < 127 || value[i] == 9
}

/// The text of a visible value, a character for each byte.
pub open spec fn text_of(value: Seq<u8>) -> Seq<char> {
    Seq::new(value.len(), |i: int| value[i] as char)
}

// ---- what a map holds ----

/// Whether some entry has the name.
pub open spec fn has_name(entries: Seq<Entry>, name: Seq<char>) -> bool {
    exists|i: int| 0 <= i < entries.len() && #[trigger] entries[i].0 == name
}

/// The different names that some entries have.
pub open spec fn names(entries: Seq<Entry>) -> Set<Seq<char>> {
    entries.map_values(|entry: Entry| entry.0).to_set()
}

/// The entries once `value` is appended to `name`: it stands right behind the last
/// value that the name had, or at the end if it had none.
pub open spec fn appended(entries: Seq<Entry>, name: Seq<char>, value: Seq<u8>) -> Seq<Entry>
    decreases entries.len(),
{
    if !has_name(entries, name) || entries.last().0 == name {
        entries.push((name, value))
    } else {
        appended(entries.drop_last(), name, value).push(entries.last())
    }
}

/// The entries once `value` is the only value of `name`: it stands where the first
/// one stood, or at the end if there was none.
pub open spec fn inserted(entries: Seq<Entry>, name: Seq<char>, value: Seq<u8>) -> Seq<Entry>
    decreases entries.len(),
{
    if !has_name(entries, name) {
        entries.push((name, value))
    } else if entries.last().0 != name {
        inserted(entries.drop_last(), name, value).push(entries.last())
    } else if has_name(entries.drop_last(), name) {
        inserted(entries.drop_last(), name, value)
    } else {
        entries.drop_last().push((name, value))
    }
}

/// The values of one name, in order.
pub open spec fn values(entries: Seq<Entry>, name: Seq<char>) -> Seq<Seq<u8>>
    decreases entries.len(),
{
    if entries.len() == 0 {
        Seq::empty()
    } else if entries.last().0 == name {
        values(entries.drop_last(), name).push(entries.last().1)
    } else {
        values(entries.drop_last(), name)
    }
}

// ---- the outside types and functions ----

/// [`http::HeaderMap`], a multimap of headers.
#[verifier::external_type_specification]
#[verifier::external_body]
#[verifier::reject_recursive_types(T)]
pub struct ExHeaderMap<T>(http::HeaderMap<T>);

/// [`http::HeaderValue`], the value of a header.
#[verifier::external_type_specification]
#[verifier::external_body]
pub struct ExHeaderValue(http::HeaderValue);

/// What a header map holds, in the order in which iterating over it hands it out:
/// once for each value, with those of one name one behind the other.
pub uninterp spec fn entries(map: http::HeaderMap<http::HeaderValue>) -> Seq<Entry>;

/// Calls [`HeaderMap::new`]: a map that holds nothing.
#[verifier::external_body]
pub(crate) fn new_map() -> (r: HeaderMap<HeaderValue>)
    ensures
        entries(r) == Seq::<Entry>::empty(),
{
    HeaderMap::new()
}

/// Calls `HeaderName::from_bytes` for whether it accepts the bytes as a name.
#[verifier::external_body]
pub(crate) fn check_name(bytes: &[u8]) -> (r: bool)
    ensures
        r == is_name(bytes@),
{
    HeaderName::from_bytes(bytes).is_ok()
}

/// Calls `HeaderValue::from_str` for whether it accepts the text as a value.
#[verifier::external_body]
pub(crate) fn check_value(text: &str) -> (r: bool)
    ensures
        r == is_value(vstd::utf8::encode_utf8(text@)),
{
    HeaderValue::from_str(text).is_ok()
}

/// Calls `HeaderMap::try_append`, which puts the value behind those that the name
/// has. It fails, and leaves what the map holds as it was, only on a map that holds
/// more than [`SURE_HEADERS`] different names; the error's text is taken as a request
/// builder reports it.
#[verifier::external_body]
pub(crate) fn append(
    map: &mut HeaderMap<HeaderValue>,
    name: &[u8],
    value: &[u8],
) -> (r: Result<(), String>)
    requires
        is_name(name@),
        is_value(value@),
    ensures
        match r {
            Ok(()) => entries(*final(map)) == appended(entries(*old(map)), name_of(name@), value@),
            Err(e) => {
                &&& names(entries(*old(map))).len() > SURE_HEADERS
                &&& entries(*final(map)) == entries(*old(map))
                &&& e@ == "max size reached"@
            },
        },
{
    let name = HeaderName::from_bytes(name).unwrap();
    let value = HeaderValue::from_bytes(value).unwrap();
    match map.try_append(name, value) {
        Ok(_) => Ok(()),
        Err(e) => Err(http::Error::from(e).to_string()),
    }
}

/// Calls `HeaderMap::try_insert`, which makes the value the only one of the name. It
/// fails, and leaves what the map holds as it was, only on a map that holds more than
/// [`SURE_HEADERS`] different names.
#[verifier::external_body]
pub(crate) fn insert(
    map: &mut HeaderMap<HeaderValue>,
    name: &[u8],
    value: &[u8],
) -> (r: Result<(), String>)
    requires
        is_name(name@),
        is_value(value@),
    ensures
        match r {
            Ok(()) => entries(*final(map)) == inserted(entries(*old(map)), name_of(name@), value@),
            Err(e) => {
                &&& names(entries(*old(map))).len() > SURE_HEADERS
                &&& entries(*final(map)) == entries(*old(map))
                &&& e@ == "max size reached"@
            },
        },
{
    let name = HeaderName::from_bytes(name).unwrap();
    let value = HeaderValue::from_bytes(value).unwrap();
    match map.try_insert(name, value) {
        Ok(_) => Ok(()),
        Err(e) => Err(http::Error::from(e).to_string()),
    }
}

/// Calls `HeaderMap::iter` and hands out each name with the bytes of the value.
#[verifier::external_body]
pub(crate) fn list(map: &HeaderMap<HeaderValue>) -> (r: Vec<(String, Vec<u8>)>)
    ensures
        r@.len() == entries(*map).len(),
        forall|i: int|
            0 <= i < r@.len() ==> (#[trigger] r@[i]).0@ == entries(*map)[i].0 && r@[i].1@
                == entries(*map)[i].1,
{
    map.iter().map(|(name, value)| (name.as_str().to_string(), value.as_bytes().to_vec())).collect()
}

/// Calls `HeaderValue::to_str` on the value that the bytes are: text exactly where
/// they are visible.
#[verifier::external_body]
pub(crate) fn read_value(bytes: &[u8]) -> (r: Option<String>)
    ensures
        match r {
            Some(text) => is_visible(bytes@) && text@ == text_of(bytes@),
            None => !is_visible(bytes@),
        },
{
    let value = HeaderValue::from_bytes(bytes).ok()?;
    value.to_str().ok().map(|text| text.to_string())
}

// ---- values survive ----

/// Appending adds one value to its name, behind those that it had, and touches no
/// other name.
pub proof fn append_adds_one_value(
    entries: Seq<Entry>,
    name: Seq<char>,
    value: Seq<u8>,
    other: Seq<char>,
)
    ensures
        values(appended(entries, name, value), other) == (if other == name {
            values(entries, other).push(value)
        } else {
            values(entries, other)
        }),
        appended(entries, name, value).len() == entries.len() + 1,
    decreases entries.len(),
{
    let after = appended(entries, name, value);
    if !has_name(entries, name) || entries.last().0 == name {
        assert(after.drop_last() =~= entries);
    } else {
        append_adds_one_value(entries.drop_last(), name, value, other);
        assert(after.drop_last() =~= appended(entries.drop_last(), name, value));
        assert(has_name(entries.drop_last(), name)) by {
            let i = choose|i: int| 0 <= i < entries.len() && #[trigger] entries[i].0 == name;
            assert(entries.drop_last()[i].0 == name);
        }
    }
}

/// A name that no entry has, has no values.
pub proof fn no_name_no_values(entries: Seq<Entry>, name: Seq<char>)
    requires
        !has_name(entries, name),
    ensures
        values(entries, name) == Seq::<Seq<u8>>::empty(),
    decreases entries.len(),
{
    if entries.len() > 0 {
        assert(entries[entries.len() - 1].0 != name);
        let front = entries.drop_last();
        assert forall|i: int| 0 <= i < front.len() implies #[trigger] front[i].0 != name by {
            assert(entries[i].0 != name);
        }
        no_name_no_values(front, name);
    }
}

/// Inserting leaves its name with one value, and touches no other name.
pub proof fn insert_sets_the_value(
    entries: Seq<Entry>,
    name: Seq<char>,
    value: Seq<u8>,
    other: Seq<char>,
)
    ensures
        values(inserted(entries, name, value), other) == (if other == name {
            seq![value]
        } else {
            values(entries, other)
        }),
    decreases entries.len(),
{
    let after = inserted(entries, name, value);
    if !has_name(entries, name) {
        assert(after.drop_last() =~= entries);
        no_name_no_values(entries, name);
        assert(Seq::<Seq<u8>>::empty().push(value) =~= seq![value]);
    } else {
        let front = entries.drop_last();
        if entries.last().0 != name {
            insert_sets_the_value(front, name, value, other);
            assert(after.drop_last() =~= inserted(front, name, value));
        } else if has_name(front, name) {
            insert_sets_the_value(front, name, value, other);
        } else {
            assert(after.drop_last() =~= front);
            no_name_no_values(front, name);
            assert(Seq::<Seq<u8>>::empty().push(value) =~= seq![value]);
        }
    }
}

/// The names of some entries are those that an entry has, and no more than there are
/// entries.
pub proof fn names_are_had(entries: Seq<Entry>)
    ensures
        names(entries).finite(),
        names(entries).len() <= entries.len(),
        forall|name: Seq<char>| #[trigger]
            names(entries).contains(name) == has_name(entries, name),
{
    let all = entries.map_values(|entry: Entry| entry.0);
    vstd::seq_lib::seq_to_set_is_finite(all);
    all.lemma_cardinality_of_set();
    assert forall|name: Seq<char>| #[trigger]
        names(entries).contains(name) == has_name(entries, name) by {
        if has_name(entries, name) {
            let i = choose|i: int| 0 <= i < entries.len() && #[trigger] entries[i].0 == name;
            assert(all[i] == name);
        }
        if all.contains(name) {
            let i = choose|i: int| 0 <= i < all.len() && all[i] == name;
            assert(entries[i].0 == name);
        }
    }
}

/// An entry at the end has its name, besides those that were had.
proof fn pushing_adds_the_name(entries: Seq<Entry>, entry: Entry)
    ensures
        names(entries.push(entry)) == names(entries).insert(entry.0),
{
    names_are_had(entries);
    names_are_had(entries.push(entry));
    assert forall|name: Seq<char>| #[trigger]
        names(entries.push(entry)).contains(name) == names(entries).insert(entry.0).contains(
            name,
        ) by {
        if has_name(entries, name) {
            let i = choose|i: int| 0 <= i < entries.len() && #[trigger] entries[i].0 == name;
            assert(entries.push(entry)[i].0 == name);
        }
        if has_name(entries.push(entry), name) && name != entry.0 {
            let i = choose|i: int|
                0 <= i < entries.push(entry).len() && #[trigger] entries.push(entry)[i].0 == name;
            assert(entries[i].0 == name);
        }
        assert(entries.push(entry)[entries.len() as int].0 == entry.0);
    }
    assert(names(entries.push(entry)) =~= names(entries).insert(entry.0));
}

/// Appending adds a name at most.
pub proof fn appending_adds_the_name(entries: Seq<Entry>, name: Seq<char>, value: Seq<u8>)
    ensures
        names(appended(entries, name, value)) == names(entries).insert(name),
    decreases entries.len(),
{
    if !has_name(entries, name) || entries.last().0 == name {
        pushing_adds_the_name(entries, (name, value));
    } else {
        let front = entries.drop_last();
        appending_adds_the_name(front, name, value);
        pushing_adds_the_name(appended(front, name, value), entries.last());
        pushing_adds_the_name(front, entries.last());
        assert(front.push(entries.last()) =~= entries);
        assert(names(front).insert(name).insert(entries.last().0) =~= names(front).insert(
            entries.last().0,
        ).insert(name));
    }
}

/// Inserting adds a name at most.
pub proof fn inserting_adds_the_name(entries: Seq<Entry>, name: Seq<char>, value: Seq<u8>)
    ensures
        names(inserted(entries, name, value)) == names(entries).insert(name),
    decreases entries.len(),
{
    if !has_name(entries, name) {
        pushing_adds_the_name(entries, (name, value));
    } else {
        let front = entries.drop_last();
        pushing_adds_the_name(front, entries.last());
        assert(front.push(entries.last()) =~= entries);
        if entries.last().0 != name {
            inserting_adds_the_name(front, name, value);
            pushing_adds_the_name(inserted(front, name, value), entries.last());
            assert(names(front).insert(name).insert(entries.last().0) =~= names(front).insert(
                entries.last().0,
            ).insert(name));
        } else if has_name(front, name) {
            inserting_adds_the_name(front, name, value);
            assert(names(front).insert(name).insert(name) =~= names(front).insert(name));
        } else {
            pushing_adds_the_name(front, (name, value));
            assert(names(front).insert(name).insert(name) =~= names(front).insert(name));
        }
    }
}

// ---- names and values that are written out ----

/// Whether a text is the name of a header as a map holds it: token characters, the
/// letters in lower case.
pub open spec fn is_plain_name(text: Seq<char>) -> bool {
    &&& 0 < text.len() <= 65535
    &&& forall|i: int|
        0 <= i < text.len() ==> {
            &&& '\0' <= (#[trigger] text[i]) <= '\u{7f}'
            &&& is_token_byte(text[i] as u8)
            &&& !('A' <= text[i] <= 'Z')
        }
}

/// Whether a text is visible ASCII.
pub open spec fn is_plain_value(text: Seq<char>) -> bool {
    forall|i: int| 0 <= i < text.len() ==> ' ' <= (#[trigger] text[i]) <= '~'
}

/// A map holds a plain name as it is.
pub proof fn plain_names_are_kept(text: Seq<char>)
    requires
        is_plain_name(text),
    ensures
        is_name(vstd::utf8::encode_utf8(text)),
        name_of(vstd::utf8::encode_utf8(text)) == text,
{
    assert(vstd::utf8::is_ascii_chars(text));
    vstd::utf8::is_ascii_chars_encode_utf8(text);
    assert(name_of(vstd::utf8::encode_utf8(text)) =~= text);
}

/// A map takes a plain value, and it reads back as it was.
pub proof fn plain_values_are_kept(text: Seq<char>)
    requires
        is_plain_value(text),
    ensures
        is_value(vstd::utf8::encode_utf8(text)),
        is_visible(vstd::utf8::encode_utf8(text)),
        text_of(vstd::utf8::encode_utf8(text)) == text,
{
    assert(vstd::utf8::is_ascii_chars(text));
    vstd::utf8::is_ascii_chars_encode_utf8(text);
    assert(text_of(vstd::utf8::encode_utf8(text)) =~= text);
}

} // verus!
