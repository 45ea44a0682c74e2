//! HTTP header fields: a list in which no name occurs twice, and what goes into it.

use axum::http::{HeaderName, HeaderValue};
use vstd::prelude::*;

use crate::text;

verus! {

/// A header field: its name and its value.
pub type Field = (Seq<char>, Seq<char>);

/// Whether a field of that name is in the list.
pub open spec fn has_name(list: Seq<Field>, name: Seq<char>) -> bool {
    exists|i: int| 0 <= i < list.len() && (#[trigger] list[i]).0 == name
}

/// Whether no name occurs twice in the list.
pub open spec fn distinct(list: Seq<Field>) -> bool {
    forall|i: int, j: int|
        0 <= i < list.len() && 0 <= j < list.len() && i != j ==> (#[trigger] list[i]).0 != (
        #[trigger] list[j]).0
}

/// The list with `value` under `name`: in the place of the field that has the name, or at the end
/// where none has it.
pub open spec fn put(list: Seq<Field>, name: Seq<char>, value: Seq<char>) -> Seq<Field> {
    if has_name(list, name) {
        let i = choose|i: int| 0 <= i < list.len() && (#[trigger] list[i]).0 == name;
        list.update(i, (name, value))
    } else {
        list.push((name, value))
    }
}

/// The list read as a map from name to value.
pub open spec fn map_of(list: Seq<Field>) -> Map<Seq<char>, Seq<char>> {
    Map::new(
        |name: Seq<char>| has_name(list, name),
        |name: Seq<char>|
            list[choose|i: int| 0 <= i < list.len() && (#[trigger] list[i]).0 == name].1,
    )
}

/// Reading a field of a list with distinct names as a map gives that field's value.
pub proof fn lemma_map_of(list: Seq<Field>, i: int)
    requires
        distinct(list),
        0 <= i < list.len(),
    ensures
        map_of(list).contains_key(list[i].0),
        map_of(list)[list[i].0] == list[i].1,
{
    let k = choose|k: int| 0 <= k < list.len() && (#[trigger] list[k]).0 == list[i].0;
    assert(list[i].0 == list[i].0);
    assert(k == i);
}

/// Putting a field keeps the names distinct and changes the map at that name alone.
pub proof fn lemma_put(list: Seq<Field>, name: Seq<char>, value: Seq<char>)
    requires
        distinct(list),
    ensures
        distinct(put(list, name, value)),
        map_of(put(list, name, value)) == map_of(list).insert(name, value),
        forall|other: Seq<char>|
            has_name(put(list, name, value), other) <==> other == name || has_name(list, other),
{
    let after = put(list, name, value);
    if has_name(list, name) {
        let i = choose|i: int| 0 <= i < list.len() && (#[trigger] list[i]).0 == name;
        assert forall|other: Seq<char>| has_name(after, other) <==> has_name(list, other) by {
            if has_name(after, other) {
                let j = choose|j: int| 0 <= j < after.len() && (#[trigger] after[j]).0 == other;
                assert(list[j].0 == other);
            }
            if has_name(list, other) {
                let j = choose|j: int| 0 <= j < list.len() && (#[trigger] list[j]).0 == other;
                assert(after[j].0 == other);
            }
        }
    } else {
        assert forall|other: Seq<char>|
            has_name(after, other) <==> other == name || has_name(list, other) by {
            if has_name(after, other) {
                let j = choose|j: int| 0 <= j < after.len() && (#[trigger] after[j]).0 == other;
                if j < list.len() {
                    assert(list[j].0 == other);
                }
            }
            if has_name(list, other) {
                let j = choose|j: int| 0 <= j < list.len() && (#[trigger] list[j]).0 == other;
                assert(after[j].0 == other);
            }
            assert(after[list.len() as int].0 == name);
        }
        assert forall|j: int| 0 <= j < list.len() implies (#[trigger] list[j]).0 != name by {}
    }
    assert(distinct(after));
    assert forall|other: Seq<char>| #[trigger]
        map_of(list).insert(name, value).contains_key(other) implies map_of(after)[other] == map_of(
        list,
    ).insert(name, value)[other] by {
        assert(has_name(after, other));
        let j = choose|j: int| 0 <= j < after.len() && (#[trigger] after[j]).0 == other;
        lemma_map_of(after, j);
        if other != name {
            assert(list[j].0 == other);
            lemma_map_of(list, j);
        }
    }
    assert(map_of(after) =~= map_of(list).insert(name, value));
}

/// Header fields in the order in which they are walked; no name occurs twice.
#[derive(Debug, PartialEq, Eq)]
pub struct Headers {
    entries: Vec<(String, String)>,
}

/// The fields that a list of texts holds.
pub open spec fn fields_of(entries: Seq<(String, String)>) -> Seq<Field> {
    Seq::new(entries.len(), |i: int| (entries[i].0@, entries[i].1@))
}

impl View for Headers {
    type V = Seq<Field>;

    closed spec fn view(&self) -> Seq<Field> {
        fields_of(self.entries@)
    }
}

impl Headers {
    #[verifier::type_invariant]
    spec fn well_formed(self) -> bool {
        distinct(fields_of(self.entries@))
    }

    /// No fields.
    pub fn new() -> (headers: Headers)
        ensures
            headers@ == Seq::<Field>::empty(),
    {
        let headers = Headers { entries: Vec::new() };
        assert(headers@ =~= Seq::<Field>::empty());
        headers
    }

    /// Puts `value` under `name`, in place of what stood there.
    pub fn insert(&mut self, name: String, value: String)
        ensures
            final(self)@ == put(old(self)@, name@, value@),
            map_of(final(self)@) == map_of(old(self)@).insert(name@, value@),
            distinct(final(self)@),
    {
        proof {
            use_type_invariant(&*self);
            lemma_put(self@, name@, value@);
        }
        let ghost before = self@;
        let mut entries: Vec<(String, String)> = Vec::new();
        std::mem::swap(&mut entries, &mut self.entries);
        let ghost had = entries@;
        let mut i: usize = 0;
        while i < entries.len() && !(entries[i].0 == name)
            invariant
                i <= entries.len(),
                entries@ == had,
                before == fields_of(had),
                forall|j: int| 0 <= j < i ==> (#[trigger] before[j]).0 != name@,
            decreases entries.len() - i,
        {
            i += 1;
        }
        if i < entries.len() {
            assert(before[i as int].0 == name@);
            entries.set(i, (name, value));
            assert(fields_of(entries@) =~= put(before, name@, value@));
        } else {
            entries.push((name, value));
            assert(fields_of(entries@) =~= put(before, name@, value@));
        }
        self.entries = entries;
    }

    /// The fields, in the order in which they are walked.
    pub fn entries(&self) -> (entries: &Vec<(String, String)>)
        ensures
            fields_of(entries@) == self@,
            distinct(self@),
    {
        proof {
            use_type_invariant(self);
        }
        &self.entries
    }
}

/// A header field as it came in: its name, and its value as bytes.
pub type RawField = (Seq<char>, Seq<u8>);

/// The fields that a list of names and bytes holds.
pub open spec fn raw_fields_of(raw: Seq<(String, Vec<u8>)>) -> Seq<RawField> {
    Seq::new(raw.len(), |i: int| (raw[i].0@, raw[i].1@))
}

/// Whether a byte of a field value is visible ASCII or a tab.
pub open spec fn is_visible(b: u8) -> bool {
    32 <= b < 127 || b == 9
}

/// The text of a field value, where all of it is visible.
pub open spec fn visible_text_of(value: Seq<u8>) -> Option<Seq<char>> {
    if forall|i: int| 0 <= i < value.len() ==> is_visible(#[trigger] value[i]) {
        Some(Seq::new(value.len(), |i: int| value[i] as char))
    } else {
        None
    }
}

/// The text under which a field value travels: its own where all of it is visible, else none.
pub open spec fn field_text_of(value: Seq<u8>) -> Seq<char> {
    text::given_or(visible_text_of(value), Seq::empty())
}

/// The fields that travel: one for each name, with the text of the last value that came under it.
pub open spec fn gathered(raw: Seq<RawField>) -> Seq<Field>
    decreases raw.len(),
{
    if raw.len() == 0 {
        Seq::empty()
    } else {
        put(gathered(raw.drop_last()), raw.last().0, field_text_of(raw.last().1))
    }
}

/// The value of the first field that is called `host`, as text; empty where there is none or where
/// it is not visible throughout.
pub open spec fn host_text_of(raw: Seq<RawField>) -> Seq<char>
    decreases raw.len(),
{
    if raw.len() == 0 {
        Seq::empty()
    } else if raw[0].0 == "host"@ {
        field_text_of(raw[0].1)
    } else {
        host_text_of(raw.skip(1))
    }
}

/// Whether a field of that name, in small letters, goes on to the local server.
pub open spec fn passes_on(lowered: Seq<char>) -> bool {
    lowered != "host"@
}

/// The fields that go on to the local server: all but `host`, under whatever capitals.
pub open spec fn without_host_of(list: Seq<Field>) -> Seq<Field> {
    list.filter(|field: Field| passes_on(text::lowercase(field.0)))
}

/// Whether a character may stand in the name of a field.
pub open spec fn is_token(c: char) -> bool {
    ||| 'a' <= c && c <= 'z'
    ||| 'A' <= c && c <= 'Z'
    ||| '0' <= c && c <= '9'
    ||| c == '!' || c == '#' || c == '$' || c == '%' || c == '&' || c == '\'' || c == '*'
    ||| c == '+' || c == '-' || c == '.' || c == '^' || c == '_' || c == '`' || c == '|' || c == '~'
}

/// The name under which HTTP knows a field: the text in small letters, where it is a name at all.
pub open spec fn field_name_of(name: Seq<char>) -> Option<Seq<char>> {
    if 0 < name.len() <= 65535 && forall|i: int|
        0 <= i < name.len() ==> is_token(#[trigger] name[i]) {
        Some(name.map_values(|c: char| text::ascii_lower(c)))
    } else {
        None
    }
}

/// Whether a text may be the value of a field: no control characters but the tab.
pub open spec fn is_field_value(value: Seq<char>) -> bool {
    forall|i: int|
        0 <= i < value.len() ==> {
            let c = #[trigger] value[i] as u32;
            32 <= c && c != 127 || c == 9
        }
}

/// The fields that an answer may carry: those whose name and value HTTP admits, each under its
/// name in small letters, a later one in place of an earlier one of the same name.
pub open spec fn answerable(list: Seq<Field>) -> Seq<Field>
    decreases list.len(),
{
    if list.len() == 0 {
        Seq::empty()
    } else {
        let rest = answerable(list.drop_last());
        match field_name_of(list.last().0) {
            Some(name) if is_field_value(list.last().1) => put(rest, name, list.last().1),
            _ => rest,
        }
    }
}

/// `HeaderValue::to_str`, on a value of these bytes: the value as text where every byte of it is
/// visible ASCII or a tab, and nothing otherwise. (`HeaderValue::from_bytes`, which makes the
/// value, turns away only bytes that are not visible either.)
#[verifier::external_body]
pub(crate) fn visible_text(value: &Vec<u8>) -> (text: Option<String>)
    ensures
        text::optional(text) == visible_text_of(value@),
{
    let value = HeaderValue::from_bytes(value).ok()?;
    value.to_str().ok().map(|text| text.to_string())
}

/// `HeaderName::try_from`: the name in small letters where the text is a name, and nothing
/// otherwise.
#[verifier::external_body]
pub(crate) fn field_name(name: &String) -> (res: Option<String>)
    ensures
        text::optional(res) == field_name_of(name@),
{
    let name = HeaderName::try_from(name.as_str()).ok()?;
    Some(name.as_str().to_string())
}

/// `HeaderValue::try_from`: whether it takes the text.
#[verifier::external_body]
pub(crate) fn takes_value(value: &String) -> (res: bool)
    ensures
        res == is_field_value(value@),
{
    HeaderValue::try_from(value.as_str()).is_ok()
}

/// The text under which a field value travels.
pub fn field_text(value: &Vec<u8>) -> (text: String)
    ensures
        text@ == field_text_of(value@),
{
    proof {
        reveal_strlit("");
        assert(""@ =~= Seq::<char>::empty());
    }
    text::or_default(visible_text(value), "")
}

/// The fields that travel for those that came in.
pub fn gather(raw: &Vec<(String, Vec<u8>)>) -> (headers: Headers)
    ensures
        headers@ == gathered(raw_fields_of(raw@)),
{
    let mut headers = Headers::new();
    let ghost all = raw_fields_of(raw@);
    assert(all.take(0) =~= Seq::<RawField>::empty());
    let mut i: usize = 0;
    while i < raw.len()
        invariant
            i <= raw.len(),
            all == raw_fields_of(raw@),
            headers@ == gathered(all.take(i as int)),
        decreases raw.len() - i,
    {
        let value = field_text(&raw[i].1);
        headers.insert(raw[i].0.clone(), value);
        assert(all.take(i + 1).drop_last() =~= all.take(i as int));
        i += 1;
    }
    assert(all.take(i as int) =~= all);
    headers
}

/// The host that a request names; empty where it names none that can be read.
pub fn host_text(raw: &Vec<(String, Vec<u8>)>) -> (text: String)
    ensures
        text@ == host_text_of(raw_fields_of(raw@)),
{
    let ghost all = raw_fields_of(raw@);
    assert(all.skip(0) =~= all);
    let mut i: usize = 0;
    while i < raw.len()
        invariant
            i <= raw.len(),
            all == raw_fields_of(raw@),
            host_text_of(all.skip(i as int)) == host_text_of(all),
        decreases raw.len() - i,
    {
        if text::same(raw[i].0.as_str(), "host") {
            return field_text(&raw[i].1);
        }
        assert(all.skip(i as int).skip(1) =~= all.skip(i + 1));
        i += 1;
    }
    String::new()
}

/// Whether a field of that name, in small letters, goes on to the local server.
pub fn goes_on(lowered: &str) -> (res: bool)
    ensures
        res == passes_on(lowered@),
{
    !text::same(lowered, "host")
}

/// The fields that go on to the local server.
pub fn without_host(headers: &Headers) -> (kept: Headers)
    ensures
        kept@ == without_host_of(headers@),
        forall|i: int|
            0 <= i < headers@.len() && text::all_ascii((#[trigger] headers@[i]).0) ==> (passes_on(
                text::lowercase(headers@[i].0),
            ) <==> headers@[i].0.map_values(|c: char| text::ascii_lower(c)) != "host"@),
{
    let entries = headers.entries();
    let ghost list = headers@;
    let ghost pred = |field: Field| passes_on(text::lowercase(field.0));
    let mut kept = Headers::new();
    let mut i: usize = 0;
    proof {
        reveal(Seq::filter);
        assert(list.take(0).filter(pred) =~= Seq::<Field>::empty());
    }
    while i < entries.len()
        invariant
            i <= entries.len(),
            list == fields_of(entries@),
            distinct(list),
            pred == (|field: Field| passes_on(text::lowercase(field.0))),
            kept@ == list.take(i as int).filter(pred),
            forall|j: int|
                0 <= j < i && text::all_ascii((#[trigger] list[j]).0) ==> (passes_on(
                    text::lowercase(list[j].0),
                ) <==> list[j].0.map_values(|c: char| text::ascii_lower(c)) != "host"@),
        decreases entries.len() - i,
    {
        let lowered = text::to_lowercase(entries[i].0.as_str());
        proof {
            reveal(Seq::filter);
            assert(list.take(i + 1).drop_last() =~= list.take(i as int));
            assert(list.take(i + 1).last() == list[i as int]);
            lemma_filtered_from(list.take(i as int), pred);
        }
        if goes_on(lowered.as_str()) {
            let ghost before = kept@;
            assert(!has_name(before, list[i as int].0)) by {
                if has_name(before, list[i as int].0) {
                    let j = choose|j: int|
                        0 <= j < before.len() && (#[trigger] before[j]).0 == list[i as int].0;
                    assert(list.take(i as int).contains(before[j]));
                }
            }
            kept.insert(entries[i].0.clone(), entries[i].1.clone());
        }
        i += 1;
    }
    assert(list.take(i as int) =~= list);
    kept
}

/// Whatever a filter leaves was there before.
proof fn lemma_filtered_from(list: Seq<Field>, pred: spec_fn(Field) -> bool)
    ensures
        forall|j: int|
            0 <= j < list.filter(pred).len() ==> list.contains(#[trigger] list.filter(pred)[j]),
    decreases list.len(),
{
    reveal(Seq::filter);
    if list.len() > 0 {
        lemma_filtered_from(list.drop_last(), pred);
        assert forall|j: int| 0 <= j < list.filter(pred).len() implies list.contains(
            #[trigger] list.filter(pred)[j],
        ) by {
            let rest = list.drop_last().filter(pred);
            if j < rest.len() {
                assert(list.drop_last().contains(rest[j]));
                let k = choose|k: int| 0 <= k < list.len() - 1 && list.drop_last()[k] == rest[j];
                assert(list[k] == rest[j]);
            } else {
                assert(list[list.len() - 1] == list.last());
            }
        }
    }
}

/// The fields of `headers` that an answer may carry.
pub fn answer_fields(headers: &Headers) -> (res: Headers)
    ensures
        res@ == answerable(headers@),
{
    let entries = headers.entries();
    let ghost list = headers@;
    let mut res = Headers::new();
    assert(list.take(0) =~= Seq::<Field>::empty());
    let mut i: usize = 0;
    while i < entries.len()
        invariant
            i <= entries.len(),
            list == fields_of(entries@),
            res@ == answerable(list.take(i as int)),
        decreases entries.len() - i,
    {
        assert(list.take(i + 1).drop_last() =~= list.take(i as int));
        assert(list.take(i + 1).last() == list[i as int]);
        if let Some(name) = field_name(&entries[i].0) {
            if takes_value(&entries[i].1) {
                res.insert(name, entries[i].1.clone());
            }
        }
        i += 1;
    }
    assert(list.take(i as int) =~= list);
    res
}

/// Whether a text is what travels for a value of these bytes: character for character the bytes,
/// where each is visible ASCII or a tab, and nothing where one is not.
pub open spec fn carries(text: Seq<char>, value: Seq<u8>) -> bool {
    if forall|i: int|
        0 <= i < value.len() ==> (32 <= #[trigger] value[i] <= 126 || value[i] == 9) {
        &&& text.len() == value.len()
        &&& forall|i: int| 0 <= i < value.len() ==> #[trigger] text[i] == value[i] as char
    } else {
        text.len() == 0
    }
}

/// A field value of visible bytes travels as it is, whole and in order; any other travels empty.
pub proof fn law_field_text(value: Seq<u8>)
    ensures
        (forall|i: int|
            0 <= i < value.len() ==> (32 <= #[trigger] value[i] <= 126 || value[i] == 9))
            ==> field_text_of(value).len() == value.len() && forall|i: int|
            0 <= i < value.len() ==> #[trigger] field_text_of(value)[i] == value[i] as char,
        !(forall|i: int|
            0 <= i < value.len() ==> (32 <= #[trigger] value[i] <= 126 || value[i] == 9))
            ==> field_text_of(value).len() == 0,
{
    if forall|i: int|
        0 <= i < value.len() ==> (32 <= #[trigger] value[i] <= 126 || value[i] == 9) {
        assert(forall|i: int| 0 <= i < value.len() ==> is_visible(#[trigger] value[i]));
    } else {
        let i = choose|i: int|
            0 <= i < value.len() && !(32 <= #[trigger] value[i] <= 126 || value[i] == 9);
        assert(!is_visible(value[i]));
    }
}

/// Whatever the bytes of a value are, its text carries them.
pub proof fn law_carried()
    ensures
        forall|value: Seq<u8>| carries(#[trigger] field_text_of(value), value),
{
    assert forall|value: Seq<u8>| carries(#[trigger] field_text_of(value), value) by {
        law_field_text(value);
    }
}

/// The host of a request is the whole value of its first field called `host`, character for
/// character, where all of it is visible, and empty where it is not.
pub proof fn law_host_text(raw: Seq<RawField>, i: int)
    requires
        0 <= i < raw.len(),
        raw[i].0 == "host"@,
        forall|j: int| 0 <= j < i ==> (#[trigger] raw[j]).0 != "host"@,
    ensures
        carries(host_text_of(raw), raw[i].1),
        (forall|k: int|
            0 <= k < raw[i].1.len() ==> (32 <= #[trigger] raw[i].1[k] <= 126 || raw[i].1[k] == 9))
            ==> host_text_of(raw).len() == raw[i].1.len() && forall|k: int|
            0 <= k < raw[i].1.len() ==> #[trigger] host_text_of(raw)[k] == raw[i].1[k] as char,
    decreases raw.len(),
{
    law_carried();
    if i > 0 {
        let rest = raw.skip(1);
        assert(raw[0].0 != "host"@);
        assert forall|j: int| 0 <= j < i - 1 implies (#[trigger] rest[j]).0 != "host"@ by {
            assert(rest[j] == raw[j + 1]);
        }
        law_host_text(rest, i - 1);
    } else {
        assert(carries(field_text_of(raw[0].1), raw[0].1));
    }
}

/// A request without a field called `host` has an empty one.
pub proof fn law_no_host_text(raw: Seq<RawField>)
    requires
        forall|j: int| 0 <= j < raw.len() ==> (#[trigger] raw[j]).0 != "host"@,
    ensures
        host_text_of(raw).len() == 0,
    decreases raw.len(),
{
    if raw.len() > 0 {
        let rest = raw.skip(1);
        assert(raw[0].0 != "host"@);
        assert forall|j: int| 0 <= j < rest.len() implies (#[trigger] rest[j]).0 != "host"@ by {
            assert(rest[j] == raw[j + 1]);
        }
        law_no_host_text(rest);
    }
}

/// Of the fields that came in, one for each name travels, and its text is that of the last value
/// that came under the name.
pub proof fn law_gathered(raw: Seq<RawField>)
    ensures
        distinct(gathered(raw)),
        forall|name: Seq<char>| #[trigger]
            has_name(gathered(raw), name) <==> exists|i: int|
                0 <= i < raw.len() && (#[trigger] raw[i]).0 == name,
        forall|i: int|
            0 <= i < raw.len() && (forall|j: int| i < j < raw.len() ==> (#[trigger] raw[j]).0
                != raw[i].0) ==> map_of(gathered(raw))[(#[trigger] raw[i]).0] == field_text_of(
                raw[i].1,
            ) && carries(map_of(gathered(raw))[raw[i].0], raw[i].1),
    decreases raw.len(),
{
    law_carried();
    if raw.len() > 0 {
        let front = raw.drop_last();
        law_gathered(front);
        lemma_put(gathered(front), raw.last().0, field_text_of(raw.last().1));
        assert forall|name: Seq<char>| #[trigger]
            has_name(gathered(raw), name) <==> exists|i: int|
                0 <= i < raw.len() && (#[trigger] raw[i]).0 == name by {
            if has_name(gathered(front), name) {
                let i = choose|i: int| 0 <= i < front.len() && (#[trigger] front[i]).0 == name;
                assert(raw[i].0 == name);
            }
            if name == raw.last().0 {
                assert(raw[raw.len() - 1].0 == name);
            }
            if exists|i: int| 0 <= i < raw.len() && (#[trigger] raw[i]).0 == name {
                let i = choose|i: int| 0 <= i < raw.len() && (#[trigger] raw[i]).0 == name;
                if i < front.len() {
                    assert(front[i].0 == name);
                }
            }
        }
        assert forall|i: int|
            0 <= i < raw.len() && (forall|j: int| i < j < raw.len() ==> (#[trigger] raw[j]).0
                != raw[i].0) implies map_of(gathered(raw))[(#[trigger] raw[i]).0] == field_text_of(
            raw[i].1,
        ) && carries(map_of(gathered(raw))[raw[i].0], raw[i].1) by {
            assert(carries(field_text_of(raw[i].1), raw[i].1));
            if i < front.len() {
                assert(raw[raw.len() - 1].0 != raw[i].0);
                assert forall|j: int| i < j < front.len() implies (#[trigger] front[j]).0
                    != front[i].0 by {
                    assert(raw[j].0 != raw[i].0);
                }
                assert(front[i] == raw[i]);
            }
        }
    }
}

/// Nothing is held back from the local server but `host`: every other field goes on, with its
/// value, and no field is added.
pub proof fn law_without_host(list: Seq<Field>)
    requires
        distinct(list),
    ensures
        distinct(without_host_of(list)),
        forall|name: Seq<char>| #[trigger]
            has_name(without_host_of(list), name) <==> has_name(list, name) && text::lowercase(name)
                != "host"@,
        forall|name: Seq<char>| #[trigger]
            has_name(without_host_of(list), name) ==> map_of(without_host_of(list))[name] == map_of(
                list,
            )[name],
    decreases list.len(),
{
    reveal(Seq::filter);
    let pred = |field: Field| passes_on(text::lowercase(field.0));
    let kept = without_host_of(list);
    if list.len() > 0 {
        let front = list.drop_last();
        let rest = without_host_of(front);
        law_without_host(front);
        lemma_filtered_from(front, pred);
        assert forall|name: Seq<char>| #[trigger] has_name(rest, name) implies name
            != list.last().0 by {
            let j = choose|j: int| 0 <= j < front.len() && (#[trigger] front[j]).0 == name;
            assert(list[j].0 != list[list.len() - 1].0);
        }
        assert forall|j: int| 0 <= j < rest.len() implies (#[trigger] rest[j]).0
            != list.last().0 by {
            assert(has_name(rest, rest[j].0));
        }
        assert(distinct(kept));
    }
    lemma_filtered_from(list, pred);
    broadcast use vstd::seq_lib::group_filter_ensures;

    assert forall|name: Seq<char>|
        (#[trigger] has_name(kept, name) <==> has_name(list, name) && passes_on(
            text::lowercase(name),
        )) && (has_name(kept, name) ==> map_of(kept)[name] == map_of(list)[name]) by {
        if has_name(kept, name) {
            let j = choose|j: int| 0 <= j < kept.len() && (#[trigger] kept[j]).0 == name;
            assert(pred(kept[j]));
            assert(list.contains(kept[j]));
            let i = choose|i: int| 0 <= i < list.len() && list[i] == kept[j];
            assert(list[i].0 == name);
            lemma_map_of(list, i);
            lemma_map_of(kept, j);
        }
        if has_name(list, name) && passes_on(text::lowercase(name)) {
            let i = choose|i: int| 0 <= i < list.len() && (#[trigger] list[i]).0 == name;
            assert(pred(list[i]));
            assert(kept.contains(list[i]));
            let j = choose|j: int| 0 <= j < kept.len() && kept[j] == list[i];
            assert(kept[j].0 == name);
        }
    }
}

/// An answer carries fields of distinct names, each name and value one that HTTP admits; and of
/// the fields of a response, each that HTTP admits is carried unless a later one of the same name
/// takes its place.
pub proof fn law_answerable(list: Seq<Field>)
    ensures
        distinct(answerable(list)),
        forall|i: int|
            0 <= i < answerable(list).len() ==> {
                let field = #[trigger] answerable(list)[i];
                is_field_value(field.1) && exists|k: int|
                    0 <= k < list.len() && field_name_of((#[trigger] list[k]).0) == Some(field.0)
                        && list[k].1 == field.1
            },
        forall|k: int|
            0 <= k < list.len() && field_name_of((#[trigger] list[k]).0) is Some && is_field_value(
                list[k].1,
            ) && (forall|j: int|
                k < j < list.len() && is_field_value((#[trigger] list[j]).1) ==> field_name_of(
                    list[j].0,
                ) != field_name_of(list[k].0)) ==> has_name(
                answerable(list),
                field_name_of(list[k].0)->0,
            ) && map_of(answerable(list))[field_name_of(list[k].0)->0] == list[k].1,
    decreases list.len(),
{
    if list.len() > 0 {
        let front = list.drop_last();
        let rest = answerable(front);
        let after = answerable(list);
        law_answerable(front);
        let name = field_name_of(list.last().0);
        let value = list.last().1;
        let taken = name is Some && is_field_value(value);
        if taken {
            lemma_put(rest, name->0, value);
        }
        assert forall|i: int| 0 <= i < after.len() implies ({
            let field = #[trigger] after[i];
            is_field_value(field.1) && exists|k: int|
                0 <= k < list.len() && field_name_of((#[trigger] list[k]).0) == Some(field.0)
                    && list[k].1 == field.1
        }) by {
            let field = after[i];
            if taken && field == (name->0, value) {
                assert(field_name_of(list[list.len() - 1].0) == Some(field.0));
            } else {
                assert(field == rest[i]);
                let k = choose|k: int|
                    0 <= k < front.len() && field_name_of((#[trigger] front[k]).0) == Some(field.0)
                        && front[k].1 == field.1;
                assert(list[k] == front[k]);
            }
        }
        assert forall|k: int|
            0 <= k < list.len() && field_name_of((#[trigger] list[k]).0) is Some && is_field_value(
                list[k].1,
            ) && (forall|j: int|
                k < j < list.len() && is_field_value((#[trigger] list[j]).1) ==> field_name_of(
                    list[j].0,
                ) != field_name_of(list[k].0)) implies has_name(
            after,
            field_name_of(list[k].0)->0,
        ) && map_of(after)[field_name_of(list[k].0)->0] == list[k].1 by {
            if k < front.len() {
                assert(front[k] == list[k]);
                assert forall|j: int|
                    k < j < front.len() && is_field_value((#[trigger] front[j]).1) implies
                    field_name_of(front[j].0) != field_name_of(front[k].0) by {
                    assert(front[j] == list[j]);
                }
                assert(has_name(rest, field_name_of(list[k].0)->0));
                if taken {
                    assert(is_field_value(list[list.len() - 1].1));
                    assert(name != field_name_of(list[k].0));
                }
            }
        }
    }
}

/// The fields of a list are read one by one, in order, each with its name and the whole of its
/// value.
pub proof fn law_fields_as_they_are(
    raw: Seq<(String, Vec<u8>)>,
    entries: Seq<(String, String)>,
)
    ensures
        raw_fields_of(raw).len() == raw.len(),
        forall|i: int|
            0 <= i < raw.len() ==> (#[trigger] raw_fields_of(raw)[i]).0 == raw[i].0@
                && raw_fields_of(raw)[i].1 == raw[i].1@,
        fields_of(entries).len() == entries.len(),
        forall|i: int|
            0 <= i < entries.len() ==> (#[trigger] fields_of(entries)[i]).0 == entries[i].0@
                && fields_of(entries)[i].1 == entries[i].1@,
{
}

/// A field name that HTTP admits is not empty, no longer than HTTP takes, and comes out as the same
/// name in small letters; one of small letters, digits and hyphens is admitted as it is.
pub proof fn law_field_name(name: Seq<char>)
    ensures
        field_name_of(name) matches Some(lowered) ==> {
            &&& 0 < name.len() <= 65535
            &&& lowered.len() == name.len()
            &&& forall|i: int|
                0 <= i < name.len() ==> #[trigger] lowered[i] == (if 'A' <= name[i] && name[i]
                    <= 'Z' {
                    (name[i] as u32 + 32) as char
                } else {
                    name[i]
                })
        },
        0 < name.len() <= 65535 && (forall|i: int|
            0 <= i < name.len() ==> ('a' <= #[trigger] name[i] && name[i] <= 'z') || ('0' <= name[i]
                && name[i] <= '9') || name[i] == '-') ==> field_name_of(name) == Some(name),
{
    if 0 < name.len() <= 65535 && (forall|i: int|
        0 <= i < name.len() ==> ('a' <= #[trigger] name[i] && name[i] <= 'z') || ('0' <= name[i]
            && name[i] <= '9') || name[i] == '-') {
        assert forall|i: int| 0 <= i < name.len() implies is_token(#[trigger] name[i]) by {}
        assert(name.map_values(|c: char| text::ascii_lower(c)) =~= name);
    }
}

} // verus!
