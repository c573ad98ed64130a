//! Keys such as `graph_ui.nodes[2].position` and the parts of a JSON
//! document that they address.

use vstd::prelude::*;
use vstd::string::StringExecFns;
use crate::json::{
    insert_in_range,
    is_member_index,
    member_keys,
    json_array,
    json_array_elements,
    json_element,
    json_elements,
    json_empty_object,
    json_is_null,
    json_is_object,
    json_member,
    json_members,
    json_null,
    json_object_insert,
    member_value,
    members_set,
};
use crate::pattern::{captures, is_match, regex_captures, regex_is_match};

verus! {

/// One step of a key: a member of an object, or an element of an array that
/// is a member of an object.
#[derive(Debug, PartialEq, Eq)]
pub enum KeySegment {
    Object(String),
    Array(String, usize),
}

/// The mathematical view of a [`KeySegment`].
pub enum KeySegmentView {
    Object(Seq<char>),
    Array(Seq<char>, usize),
}

impl View for KeySegment {
    type V = KeySegmentView;

    open spec fn view(&self) -> KeySegmentView {
        match self {
            KeySegment::Object(field) => KeySegmentView::Object(field@),
            KeySegment::Array(field, index) => KeySegmentView::Array(field@, *index),
        }
    }
}

impl DeepView for KeySegment {
    type V = KeySegmentView;

    open spec fn deep_view(&self) -> KeySegmentView {
        self@
    }
}

impl Clone for KeySegment {
    fn clone(&self) -> (r: Self)
        ensures
            r@ == self@,
    {
        match self {
            KeySegment::Object(field) => KeySegment::Object(field.clone()),
            KeySegment::Array(field, index) => KeySegment::Array(field.clone(), *index),
        }
    }
}

/// Why a key cannot be used.
#[derive(Debug, PartialEq, Eq)]
pub enum KeyError {
    /// The key holds a character other than a lowercase letter, a digit, an
    /// underscore, a dot or a bracket, or is empty.
    InvalidCharacters,
    /// Two dots follow each other, or the key starts or ends with a dot.
    EmptySegment,
    /// A part of the key holds no name.
    InvalidSegment(String),
    /// The index of an array is too large.
    InvalidIndex,
    /// A pattern of this module was not accepted.
    InvalidPattern,
}

/// The mathematical view of a [`KeyError`].
pub enum KeyErrorView {
    InvalidCharacters,
    EmptySegment,
    InvalidSegment(Seq<char>),
    InvalidIndex,
    InvalidPattern,
}

impl View for KeyError {
    type V = KeyErrorView;

    open spec fn view(&self) -> KeyErrorView {
        match self {
            KeyError::InvalidCharacters => KeyErrorView::InvalidCharacters,
            KeyError::EmptySegment => KeyErrorView::EmptySegment,
            KeyError::InvalidSegment(part) => KeyErrorView::InvalidSegment(part@),
            KeyError::InvalidIndex => KeyErrorView::InvalidIndex,
            KeyError::InvalidPattern => KeyErrorView::InvalidPattern,
        }
    }
}

/// The message that reports an error.
pub open spec fn key_error_message(error: KeyErrorView) -> Seq<char> {
    match error {
        KeyErrorView::InvalidCharacters => "Key contains invalid characters. Only lowercase letters, numbers, underscore, dots and brackets are allowed"@,
        KeyErrorView::EmptySegment => "Empty key segment found"@,
        KeyErrorView::InvalidSegment(part) => "Invalid key segment: "@ + part,
        KeyErrorView::InvalidIndex => "Invalid array index"@,
        KeyErrorView::InvalidPattern => "Invalid key pattern"@,
    }
}

impl KeyError {
    /// The message of this error.
    pub fn to_string(&self) -> (r: String)
        ensures
            r@ == key_error_message(self@),
    {
        match self {
            KeyError::InvalidCharacters => String::from_str(
                "Key contains invalid characters. Only lowercase letters, numbers, underscore, dots and brackets are allowed",
            ),
            KeyError::EmptySegment => String::from_str("Empty key segment found"),
            KeyError::InvalidSegment(part) => {
                let mut message = String::from_str("Invalid key segment: ");
                message.append(part.as_str());
                message
            },
            KeyError::InvalidIndex => String::from_str("Invalid array index"),
            KeyError::InvalidPattern => String::from_str("Invalid key pattern"),
        }
    }
}

/// The pattern that a whole key must match.
pub open spec fn key_pattern() -> Seq<char> {
    "^[a-z0-9_.\\[\\]]+$"@
}

/// The pattern that finds the name and the index in one part of a key.
pub open spec fn segment_pattern() -> Seq<char> {
    "([a-z0-9_]+)(?:\\[(\\d+)\\])?"@
}

// ---------------------------------------------------------------------------
// Decimal numbers
// ---------------------------------------------------------------------------

pub open spec fn is_digit(c: char) -> bool {
    '0' <= c && c <= '9'
}

/// The number that a sequence of decimal digits denotes.
pub open spec fn decimal_value(digits: Seq<char>) -> nat
    decreases digits.len(),
{
    if digits.len() == 0 {
        0
    } else {
        decimal_value(digits.drop_last()) * 10 + ((digits.last() as u32 - '0' as u32) as nat)
    }
}

/// The number that `text` denotes as `usize`: an optional `+`, then one or
/// more decimal digits whose value fits.
pub open spec fn decimal_usize(text: Seq<char>) -> Option<usize> {
    let digits = if text.len() > 0 && text[0] == '+' {
        text.skip(1)
    } else {
        text
    };
    if digits.len() > 0 && (forall|i: int| 0 <= i < digits.len() ==> is_digit(#[trigger] digits[i]))
        && decimal_value(digits) <= usize::MAX {
        Some(decimal_value(digits) as usize)
    } else {
        None
    }
}

/// `str::parse::<usize>`: the number that the text denotes in decimal;
/// `None` where the text is not an optional `+` followed by one or more
/// decimal digits, or the number does not fit.
#[verifier::external_body]
fn parse_usize(text: &str) -> (r: Option<usize>)
    ensures
        r == decimal_usize(text@),
{
    match text.parse::<usize>() {
        Ok(value) => Some(value),
        Err(_) => None,
    }
}

// ---------------------------------------------------------------------------
// The parts of a key
// ---------------------------------------------------------------------------

/// Where the part that holds position `n` begins: after the last dot before
/// `n`.
pub open spec fn part_start(s: Seq<char>, n: nat) -> nat
    decreases n,
{
    if n == 0 {
        0
    } else if s[n - 1] == '.' {
        n
    } else {
        part_start(s, (n - 1) as nat)
    }
}

/// The parts of `s` that a dot before position `n` ends.
pub open spec fn parts_before(s: Seq<char>, n: nat) -> Seq<Seq<char>>
    decreases n,
{
    if n == 0 {
        Seq::empty()
    } else if s[n - 1] == '.' {
        parts_before(s, (n - 1) as nat).push(
            s.subrange(part_start(s, (n - 1) as nat) as int, n - 1),
        )
    } else {
        parts_before(s, (n - 1) as nat)
    }
}

/// The parts of `s` between its dots, in order. A text without a dot is one
/// part; a dot at either end gives an empty part there.
pub open spec fn split_on_dots(s: Seq<char>) -> Seq<Seq<char>> {
    parts_before(s, s.len()).push(s.subrange(part_start(s, s.len()) as int, s.len() as int))
}

/// Splits a text at its dots.
pub fn split_key(key: &str) -> (r: Vec<String>)
    ensures
        r.deep_view() == split_on_dots(key@),
{
    let n = key.unicode_len();
    let mut parts: Vec<String> = Vec::new();
    let mut start: usize = 0;
    let mut index: usize = 0;
    proof {
        assert(parts.deep_view() =~= parts_before(key@, 0));
    }
    for c in it: key.chars()
        invariant
            it.seq() == key@,
            n == key@.len(),
            index == it.index(),
            start == part_start(key@, index as nat),
            start <= index,
            parts.deep_view() == parts_before(key@, index as nat),
    {
        if c == '.' {
            let part = String::from_str(key.substring_char(start, index));
            let ghost before = parts.deep_view();
            parts.push(part);
            proof {
                assert(parts.deep_view() =~= before.push(key@.subrange(start as int, index as int)));
            }
            start = index + 1;
        }
        index += 1;
    }
    let last = String::from_str(key.substring_char(start, n));
    let ghost before = parts.deep_view();
    parts.push(last);
    proof {
        assert(parts.deep_view() =~= before.push(key@.subrange(start as int, n as int)));
    }
    parts
}

// ---------------------------------------------------------------------------
// Parsing
// ---------------------------------------------------------------------------

/// The segment that the capture groups of one part of a key denote: the
/// first group is the name, the second, where it took part, the index.
pub open spec fn segment_of(groups: Seq<Option<Seq<char>>>, part: Seq<char>) -> Result<
    KeySegmentView,
    KeyErrorView,
> {
    if groups.len() > 1 && groups[1] is Some {
        let field = groups[1]->Some_0;
        if groups.len() > 2 && groups[2] is Some {
            match decimal_usize(groups[2]->Some_0) {
                Some(index) => Ok(KeySegmentView::Array(field, index)),
                None => Err(KeyErrorView::InvalidIndex),
            }
        } else {
            Ok(KeySegmentView::Object(field))
        }
    } else {
        Err(KeyErrorView::InvalidSegment(part))
    }
}

/// The segment that one part of a key denotes.
pub open spec fn parse_part(part: Seq<char>) -> Result<KeySegmentView, KeyErrorView> {
    if part.len() == 0 {
        Err(KeyErrorView::EmptySegment)
    } else {
        match regex_captures(segment_pattern(), part) {
            None => Err(KeyErrorView::InvalidPattern),
            Some(None) => Err(KeyErrorView::InvalidSegment(part)),
            Some(Some(groups)) => segment_of(groups, part),
        }
    }
}

/// The segments that the first `n` parts of a key denote.
pub open spec fn parse_parts(parts: Seq<Seq<char>>, n: nat) -> Result<
    Seq<KeySegmentView>,
    KeyErrorView,
>
    decreases n,
{
    if n == 0 {
        Ok(Seq::empty())
    } else {
        match parse_parts(parts, (n - 1) as nat) {
            Err(e) => Err(e),
            Ok(done) => match parse_part(parts[n - 1]) {
                Err(e) => Err(e),
                Ok(segment) => Ok(done.push(segment)),
            },
        }
    }
}

/// The segments that a key denotes: the key must match the pattern for
/// keys, and each of its parts between dots must denote a segment.
pub open spec fn parse_key_text(key: Seq<char>) -> Result<Seq<KeySegmentView>, KeyErrorView> {
    match regex_is_match(key_pattern(), key) {
        None => Err(KeyErrorView::InvalidPattern),
        Some(false) => Err(KeyErrorView::InvalidCharacters),
        Some(true) => parse_parts(split_on_dots(key), split_on_dots(key).len()),
    }
}

/// The view of what parsing returned.
pub open spec fn parsed<T: DeepView>(result: Result<T, KeyError>) -> Result<T::V, KeyErrorView> {
    match result {
        Ok(value) => Ok(value.deep_view()),
        Err(e) => Err(e@),
    }
}

proof fn lemma_parse_parts_fails(parts: Seq<Seq<char>>, j: nat, n: nat)
    requires
        j <= n,
        parse_parts(parts, j) is Err,
    ensures
        parse_parts(parts, n) == parse_parts(parts, j),
    decreases n - j,
{
    if j < n {
        lemma_parse_parts_fails(parts, j, (n - 1) as nat);
    }
}

/// The segment that the capture groups of one part of a key denote.
pub fn segment_from_captures(groups: &Vec<Option<String>>, part: &str) -> (r: Result<
    KeySegment,
    KeyError,
>)
    ensures
        parsed(r) == segment_of(groups.deep_view(), part@),
{
    let field = if groups.len() > 1 {
        match &groups[1] {
            Some(name) => Some(name),
            None => None,
        }
    } else {
        None
    };
    let field_name = match field {
        Some(name) => name,
        None => {
            return Err(KeyError::InvalidSegment(String::from_str(part)));
        },
    };
    proof {
        assert(groups.deep_view()[1] == groups[1].deep_view());
    }
    let index_text = if groups.len() > 2 {
        match &groups[2] {
            Some(digits) => Some(digits),
            None => None,
        }
    } else {
        None
    };
    match index_text {
        Some(digits) => {
            proof {
                assert(groups.deep_view()[2] == groups[2].deep_view());
            }
            match parse_usize(digits.as_str()) {
                Some(index) => Ok(KeySegment::Array(field_name.clone(), index)),
                None => Err(KeyError::InvalidIndex),
            }
        },
        None => {
            proof {
                if groups.len() > 2 {
                    assert(groups.deep_view()[2] == groups[2].deep_view());
                }
            }
            Ok(KeySegment::Object(field_name.clone()))
        },
    }
}

/// The segment that one part of a key denotes.
pub fn parse_key_part(part: &str) -> (r: Result<KeySegment, KeyError>)
    ensures
        parsed(r) == parse_part(part@),
{
    if part.unicode_len() == 0 {
        return Err(KeyError::EmptySegment);
    }
    match captures("([a-z0-9_]+)(?:\\[(\\d+)\\])?", part) {
        None => Err(KeyError::InvalidPattern),
        Some(None) => Err(KeyError::InvalidSegment(String::from_str(part))),
        Some(Some(groups)) => segment_from_captures(&groups, part),
    }
}

/// Parses a key into its segments. A key is made of lowercase letters,
/// digits, underscores, dots and brackets; the dots separate its parts, and
/// each part is a name, or a name followed by an index in brackets.
pub fn parse_key(key: &str) -> (r: Result<Vec<KeySegment>, KeyError>)
    ensures
        parsed(r) == parse_key_text(key@),
{
    match is_match("^[a-z0-9_.\\[\\]]+$", key) {
        None => {
            return Err(KeyError::InvalidPattern);
        },
        Some(false) => {
            return Err(KeyError::InvalidCharacters);
        },
        Some(true) => {},
    }
    let parts = split_key(key);
    let ghost texts = parts.deep_view();
    let mut segments: Vec<KeySegment> = Vec::new();
    let n = parts.len();
    let mut i: usize = 0;
    proof {
        assert(segments.deep_view() =~= Seq::empty());
    }
    while i < n
        invariant
            i <= n,
            n == parts.len(),
            texts == parts.deep_view(),
            texts == split_on_dots(key@),
            regex_is_match(key_pattern(), key@) == Some(true),
            parse_parts(texts, i as nat) == Ok::<Seq<KeySegmentView>, KeyErrorView>(
                segments.deep_view(),
            ),
        decreases n - i,
    {
        proof {
            assert(texts[i as int] == parts[i as int]@);
        }
        match parse_key_part(parts[i].as_str()) {
            Ok(segment) => {
                let ghost before = segments.deep_view();
                let ghost view = segment@;
                segments.push(segment);
                proof {
                    assert(segments.deep_view() =~= before.push(view));
                }
            },
            Err(e) => {
                proof {
                    lemma_parse_parts_fails(texts, (i + 1) as nat, n as nat);
                }
                return Err(e);
            },
        }
        i += 1;
    }
    Ok(segments)
}

// ---------------------------------------------------------------------------
// Reading
// ---------------------------------------------------------------------------

/// The part of a document that one segment leads to.
pub open spec fn step_into(current: serde_json::Value, segment: KeySegmentView) -> Option<
    serde_json::Value,
> {
    match json_members(current) {
        None => None,
        Some(members) => match segment {
            KeySegmentView::Object(field) => member_value(members, field),
            KeySegmentView::Array(field, index) => match member_value(members, field) {
                None => None,
                Some(list) => match json_elements(list) {
                    None => None,
                    Some(elements) => if index < elements.len() {
                        Some(elements[index as int])
                    } else {
                        None
                    },
                },
            },
        },
    }
}

/// The part of a document that the first `n` segments lead to.
pub open spec fn lookup(data: serde_json::Value, segments: Seq<KeySegmentView>, n: nat) -> Option<
    serde_json::Value,
>
    decreases n,
{
    if n == 0 {
        Some(data)
    } else {
        match lookup(data, segments, (n - 1) as nat) {
            None => None,
            Some(current) => step_into(current, segments[n - 1]),
        }
    }
}

proof fn lemma_lookup_fails(data: serde_json::Value, segments: Seq<KeySegmentView>, j: nat, n: nat)
    requires
        j <= n,
        lookup(data, segments, j) is None,
    ensures
        lookup(data, segments, n) is None,
    decreases n - j,
{
    if j < n {
        lemma_lookup_fails(data, segments, j, (n - 1) as nat);
    }
}

/// The part of a document that segments lead to, copied; `None` where a
/// segment leads nowhere.
pub fn get_value_by_segments(data: &serde_json::Value, segments: &Vec<KeySegment>) -> (r: Option<
    serde_json::Value,
>)
    ensures
        r == lookup(*data, segments.deep_view(), segments.len() as nat),
{
    let ghost views = segments.deep_view();
    let mut current = data;
    let n = segments.len();
    let mut i: usize = 0;
    while i < n
        invariant
            i <= n,
            n == segments.len(),
            views == segments.deep_view(),
            lookup(*data, views, i as nat) == Some(*current),
        decreases n - i,
    {
        proof {
            assert(views[i as int] == segments[i as int]@);
        }
        let next = match &segments[i] {
            KeySegment::Object(field) => json_member(current, field.as_str()),
            KeySegment::Array(field, index) => match json_member(current, field.as_str()) {
                Some(list) => json_element(list, *index),
                None => None,
            },
        };
        match next {
            Some(value) => {
                current = value;
            },
            None => {
                proof {
                    lemma_lookup_fails(*data, views, (i + 1) as nat, n as nat);
                }
                return None;
            },
        }
        i += 1;
    }
    Some(current.clone())
}

/// The part of a document that a key addresses, copied. A key that cannot
/// be parsed is an error; a key that leads nowhere gives `None`.
pub fn get_value_by_key(data: &serde_json::Value, key: &str) -> (r: Result<
    Option<serde_json::Value>,
    KeyError,
>)
    ensures
        match parse_key_text(key@) {
            Err(e) => r is Err && r->Err_0@ == e,
            Ok(segments) => r is Ok && r->Ok_0 == lookup(*data, segments, segments.len()),
        },
{
    let segments = parse_key(key)?;
    Ok(get_value_by_segments(data, &segments))
}

// ---------------------------------------------------------------------------
// Writing
// ---------------------------------------------------------------------------

/// An object without members.
pub open spec fn is_empty_object(value: serde_json::Value) -> bool {
    json_members(value) == Some(Seq::<(Seq<char>, serde_json::Value)>::empty())
}

/// Whether `child` is what writing below the member `field` starts from: the
/// member, or an empty object where there is none.
pub open spec fn child_start(
    members: Seq<(Seq<char>, serde_json::Value)>,
    field: Seq<char>,
    child: serde_json::Value,
) -> bool {
    match member_value(members, field) {
        Some(existing) => child == existing,
        None => is_empty_object(child),
    }
}

/// Whether `item` is what writing below the element at `position` starts
/// from: the element where it is an object, else an empty object.
pub open spec fn item_start(
    elements: Seq<serde_json::Value>,
    position: int,
    item: serde_json::Value,
) -> bool {
    if position < elements.len() && json_members(elements[position]) is Some {
        item == elements[position]
    } else {
        is_empty_object(item)
    }
}

/// Whether `placed` is `elements` made long enough to hold `position`, with
/// `null` in each new place, but for what stands at `position` itself.
pub open spec fn padded(
    elements: Seq<serde_json::Value>,
    position: int,
    placed: Seq<serde_json::Value>,
) -> bool {
    &&& placed.len() == if position < elements.len() {
        elements.len() as int
    } else {
        position + 1
    }
    &&& forall|j: int| 0 <= j < elements.len() && j != position ==> placed[j] == elements[j]
    &&& forall|j: int|
        elements.len() <= j < placed.len() && j != position ==> json_is_null(#[trigger] placed[j])
}

/// Whether `after` is an object that holds `members` with `field` set to
/// `value`, placed as `serde_json` places it.
pub open spec fn member_set(
    members: Seq<(Seq<char>, serde_json::Value)>,
    field: Seq<char>,
    value: serde_json::Value,
    after: serde_json::Value,
) -> bool {
    &&& insert_in_range(members, field)
    &&& json_members(after) == Some(members_set(members, field, value))
}

/// The elements to start from where an element of the member `present` is
/// written: those of the member, or none where there is no member.
pub open spec fn elements_at(present: Option<serde_json::Value>) -> Seq<serde_json::Value> {
    match present {
        Some(list) => match json_elements(list) {
            Some(elements) => elements,
            None => Seq::empty(),
        },
        None => Seq::empty(),
    }
}

/// Whether `list` is an array that holds `placed`, which is `elements` made
/// long enough to hold `position`; at `position` stands `value` where this
/// is the last step, else what writing below made of `item`, the element to
/// start from.
pub open spec fn element_placed(
    elements: Seq<serde_json::Value>,
    position: int,
    last: bool,
    value: serde_json::Value,
    placed: Seq<serde_json::Value>,
    list: serde_json::Value,
    item: serde_json::Value,
) -> bool {
    &&& padded(elements, position, placed)
    &&& json_elements(list) == Some(placed)
    &&& if last {
        placed[position] == value
    } else {
        item_start(elements, position, item)
    }
}

/// Whether `after` is the document `before` with `value` written where the
/// segments from `index` on lead. Objects and arrays on the way are made
/// where they are missing; a document that is no object, and a member that
/// should be an array and is none, are left as they are.
pub open spec fn written(
    before: serde_json::Value,
    segments: Seq<KeySegmentView>,
    index: nat,
    value: serde_json::Value,
    after: serde_json::Value,
) -> bool
    decreases segments.len() - index,
{
    if index >= segments.len() {
        after == before
    } else {
        let last = index == segments.len() - 1;
        let next = (index + 1) as nat;
        match json_members(before) {
            None => after == before,
            Some(members) => match segments[index as int] {
                KeySegmentView::Object(field) => if last {
                    member_set(members, field, value, after)
                } else {
                    exists|child: serde_json::Value, below: serde_json::Value|
                        #![trigger child_start(members, field, child), member_set(members, field, below, after)]
                        child_start(members, field, child) && written(
                            child,
                            segments,
                            next,
                            value,
                            below,
                        ) && member_set(members, field, below, after)
                },
                KeySegmentView::Array(field, position) => {
                    let present = member_value(members, field);
                    if present is Some && json_elements(present->Some_0) is None {
                        after == before
                    } else {
                        exists|
                            placed: Seq<serde_json::Value>,
                            list: serde_json::Value,
                            item: serde_json::Value,
                        |
                            #![trigger element_placed(elements_at(present), position as int, last, value, placed, list, item)]
                            element_placed(
                                elements_at(present),
                                position as int,
                                last,
                                value,
                                placed,
                                list,
                                item,
                            ) && (!last ==> written(
                                item,
                                segments,
                                next,
                                value,
                                placed[position as int],
                            )) && member_set(members, field, list, after)
                    }
                },
            },
        }
    }
}

/// Whether `root` is what writing into the document `before` starts from:
/// the document where it is an object, else an empty object.
pub open spec fn root_start(before: serde_json::Value, root: serde_json::Value) -> bool {
    if json_members(before) is Some {
        root == before
    } else {
        is_empty_object(root)
    }
}

/// Writing below a member of an object comes to writing into that member.
proof fn lemma_written_below_member(
    before: serde_json::Value,
    segments: Seq<KeySegmentView>,
    index: nat,
    value: serde_json::Value,
    after: serde_json::Value,
    child: serde_json::Value,
    below: serde_json::Value,
)
    requires
        index + 1 < segments.len(),
        json_members(before) is Some,
        segments[index as int] is Object,
        child_start(json_members(before)->Some_0, segments[index as int]->Object_0, child),
        written(child, segments, index + 1, value, below),
        member_set(json_members(before)->Some_0, segments[index as int]->Object_0, below, after),
    ensures
        written(before, segments, index, value, after),
{
}

/// Writing at or below an element of an array that is a member of an
/// object comes to placing the element in the array.
proof fn lemma_written_element(
    before: serde_json::Value,
    segments: Seq<KeySegmentView>,
    index: nat,
    value: serde_json::Value,
    after: serde_json::Value,
    placed: Seq<serde_json::Value>,
    list: serde_json::Value,
    item: serde_json::Value,
)
    requires
        index < segments.len(),
        json_members(before) is Some,
        segments[index as int] is Array,
        ({
            let present = member_value(
                json_members(before)->Some_0,
                segments[index as int]->Array_0,
            );
            &&& !(present is Some && json_elements(present->Some_0) is None)
            &&& element_placed(
                elements_at(present),
                segments[index as int]->Array_1 as int,
                index == segments.len() - 1,
                value,
                placed,
                list,
                item,
            )
        }),
        index + 1 < segments.len() ==> written(
            item,
            segments,
            index + 1,
            value,
            placed[segments[index as int]->Array_1 as int],
        ),
        member_set(json_members(before)->Some_0, segments[index as int]->Array_0, list, after),
    ensures
        written(before, segments, index, value, after),
{
}

/// The part of a document that the segments from `index` on lead to.
pub open spec fn follow(current: serde_json::Value, segments: Seq<KeySegmentView>, index: nat) -> Option<
    serde_json::Value,
>
    decreases segments.len() - index,
{
    if index >= segments.len() {
        Some(current)
    } else {
        match step_into(current, segments[index as int]) {
            None => None,
            Some(next) => follow(next, segments, index + 1),
        }
    }
}

/// Following all segments is following the first `k` and then the rest.
pub proof fn lemma_lookup_then_follow(
    data: serde_json::Value,
    segments: Seq<KeySegmentView>,
    k: nat,
)
    requires
        k <= segments.len(),
    ensures
        follow(data, segments, 0) == match lookup(data, segments, k) {
            None => None,
            Some(current) => follow(current, segments, k),
        },
    decreases k,
{
    if k > 0 {
        lemma_lookup_then_follow(data, segments, (k - 1) as nat);
        match lookup(data, segments, (k - 1) as nat) {
            None => {},
            Some(current) => {
                assert(follow(current, segments, (k - 1) as nat) == match step_into(
                    current,
                    segments[k - 1],
                ) {
                    None => None,
                    Some(next) => follow(next, segments, k),
                });
            },
        }
    }
}

/// An object without members that gets one member holds that member alone.
pub proof fn lemma_first_member(
    field: Seq<char>,
    value: serde_json::Value,
    after: serde_json::Value,
)
    requires
        member_set(Seq::empty(), field, value, after),
    ensures
        json_members(after) == Some(seq![(field, value)]),
        member_value(json_members(after)->Some_0, field) == Some(value),
{
    let none = Seq::<(Seq<char>, serde_json::Value)>::empty();
    let members = members_set(none, field, value);
    assert(!exists|i: int| is_member_index(none, field, i));
    assert(member_keys(none).len() == 0);
    assert(members =~= seq![(field, value)]);
    assert(is_member_index(members, field, 0));
    let chosen = choose|i: int| is_member_index(members, field, i);
    assert(chosen == 0);
}

/// What is written into an object without members is found again where the
/// same segments lead.
pub proof fn lemma_written_then_followed(
    before: serde_json::Value,
    segments: Seq<KeySegmentView>,
    index: nat,
    value: serde_json::Value,
    after: serde_json::Value,
)
    requires
        index < segments.len(),
        is_empty_object(before),
        written(before, segments, index, value, after),
    ensures
        follow(after, segments, index) == Some(value),
    decreases segments.len() - index,
{
    let none = Seq::<(Seq<char>, serde_json::Value)>::empty();
    let last = index == segments.len() - 1;
    let next = (index + 1) as nat;
    assert(json_members(before) == Some(none));
    assert(member_value(none, segments[index as int]->Object_0) is None) by {
        assert(!exists|i: int| is_member_index(none, segments[index as int]->Object_0, i));
    }
    assert(member_value(none, segments[index as int]->Array_0) is None) by {
        assert(!exists|i: int| is_member_index(none, segments[index as int]->Array_0, i));
    }
    match segments[index as int] {
        KeySegmentView::Object(field) => {
            if last {
                lemma_first_member(field, value, after);
                assert(step_into(after, segments[index as int]) == Some(value));
                assert(follow(value, segments, next) == Some(value));
            } else {
                let (child, below) = choose|child: serde_json::Value, below: serde_json::Value|
                    #![trigger child_start(none, field, child), member_set(none, field, below, after)]
                    child_start(none, field, child) && written(
                        child,
                        segments,
                        next,
                        value,
                        below,
                    ) && member_set(none, field, below, after);
                lemma_written_then_followed(child, segments, next, value, below);
                lemma_first_member(field, below, after);
                assert(step_into(after, segments[index as int]) == Some(below));
            }
        },
        KeySegmentView::Array(field, position) => {
            let present = member_value(none, field);
            assert(elements_at(present) =~= Seq::<serde_json::Value>::empty());
            let elements = elements_at(present);
            let (placed, list, item) = choose|
                placed: Seq<serde_json::Value>,
                list: serde_json::Value,
                item: serde_json::Value,
            |
                #![trigger element_placed(elements, position as int, last, value, placed, list, item)]
                element_placed(elements, position as int, last, value, placed, list, item) && (!last
                    ==> written(item, segments, next, value, placed[position as int]))
                    && member_set(none, field, list, after);
            lemma_first_member(field, list, after);
            assert(placed.len() == position + 1);
            assert(step_into(after, segments[index as int]) == Some(placed[position as int]));
            if last {
                assert(follow(value, segments, next) == Some(value));
            } else {
                lemma_written_then_followed(item, segments, next, value, placed[position as int]);
            }
        },
    }
}

/// Parsing the first `n` parts of a key gives `n` segments.
pub proof fn lemma_parse_parts_len(parts: Seq<Seq<char>>, n: nat)
    requires
        parse_parts(parts, n) is Ok,
    ensures
        parse_parts(parts, n)->Ok_0.len() == n,
    decreases n,
{
    if n > 0 {
        lemma_parse_parts_len(parts, (n - 1) as nat);
    }
}

/// Written, then read. A value that is written under a key into a document
/// that is an object without members, or no object at all, is what reading
/// under the same key finds.
pub proof fn law_set_then_get(
    before: serde_json::Value,
    key: Seq<char>,
    value: serde_json::Value,
    root: serde_json::Value,
    after: serde_json::Value,
)
    requires
        parse_key_text(key) is Ok,
        json_members(before) is None || is_empty_object(before),
        root_start(before, root),
        written(root, parse_key_text(key)->Ok_0, 0, value, after),
    ensures
        lookup(after, parse_key_text(key)->Ok_0, parse_key_text(key)->Ok_0.len()) == Some(value),
{
    let segments = parse_key_text(key)->Ok_0;
    let parts = split_on_dots(key);
    lemma_parse_parts_len(parts, parts.len());
    assert(segments.len() > 0);
    lemma_written_then_followed(root, segments, 0, value, after);
    lemma_lookup_then_follow(after, segments, segments.len());
}

/// Writes `value` into `current` where the segments from `index` on lead.
pub fn set_value_recursive(
    current: &mut serde_json::Value,
    segments: &Vec<KeySegment>,
    index: usize,
    value: serde_json::Value,
)
    ensures
        written(*old(current), segments.deep_view(), index as nat, value, *final(current)),
    decreases segments.len() - index,
{
    let ghost views = segments.deep_view();
    let ghost before = *current;
    if index >= segments.len() {
        return ;
    }
    if !json_is_object(current) {
        return ;
    }
    let ghost members = json_members(before)->Some_0;
    let is_last = index == segments.len() - 1;
    proof {
        assert(views[index as int] == segments[index as int]@);
    }
    match &segments[index] {
        KeySegment::Object(field) => {
            if is_last {
                json_object_insert(current, field.clone(), value);
                proof {
                    assert(written(before, views, index as nat, value, *current));
                }
            } else {
                let mut child = match json_member(current, field.as_str()) {
                    Some(existing) => existing.clone(),
                    None => json_empty_object(),
                };
                let ghost start = child;
                set_value_recursive(&mut child, segments, index + 1, value);
                let ghost below = child;
                json_object_insert(current, field.clone(), child);
                proof {
                    assert(child_start(members, field@, start));
                    assert(written(start, views, (index + 1) as nat, value, below));
                    assert(json_members(*current) == Some(members_set(members, field@, below)));
                    lemma_written_below_member(
                        before,
                        views,
                        index as nat,
                        value,
                        *current,
                        start,
                        below,
                    );
                }
            }
        },
        KeySegment::Array(field, array_index) => {
            let position = *array_index;
            let existing = match json_member(current, field.as_str()) {
                Some(list) => json_array_elements(list),
                None => Some(Vec::new()),
            };
            let mut elements = match existing {
                Some(elements) => elements,
                None => {
                    return ;
                },
            };
            let ghost given = elements@;
            while elements.len() <= position
                invariant
                    given.len() <= elements.len(),
                    forall|j: int| 0 <= j < given.len() ==> elements@[j] == given[j],
                    forall|j: int|
                        given.len() <= j < elements.len() ==> json_is_null(
                            #[trigger] elements@[j],
                        ) && json_members(elements@[j]) is None,
                    position < given.len() ==> elements.len() == given.len(),
                    position >= given.len() ==> elements.len() <= position + 1,
                decreases position + 1 - elements.len(),
            {
                elements.push(json_null());
            }
            let ghost grown = elements@;
            let ghost mut first = value;
            if is_last {
                elements[position] = value;
            } else {
                let mut item = if json_is_object(&elements[position]) {
                    elements[position].clone()
                } else {
                    json_empty_object()
                };
                let ghost start = item;
                set_value_recursive(&mut item, segments, index + 1, value);
                elements[position] = item;
                proof {
                    first = start;
                    assert(item_start(given, position as int, start));
                    assert(written(
                        start,
                        views,
                        (index + 1) as nat,
                        value,
                        elements@[position as int],
                    ));
                }
            }
            let ghost placed = elements@;
            let list = json_array(elements);
            json_object_insert(current, field.clone(), list);
            proof {
                let present = member_value(members, field@);
                assert(!(present is Some && json_elements(present->Some_0) is None));
                if is_last {
                    assert(placed[position as int] == value);
                }
                assert(padded(given, position as int, placed)) by {
                    assert forall|j: int|
                        given.len() <= j < placed.len() && j != position implies json_is_null(
                        #[trigger] placed[j],
                    ) by {
                        assert(placed[j] == grown[j]);
                    }
                }
                assert(json_elements(list) == Some(placed));
                assert(json_members(*current) == Some(members_set(members, field@, list)));
                assert(views[index as int] == KeySegmentView::Array(field@, position));
                assert(given == elements_at(present));
                lemma_written_element(
                    before,
                    views,
                    index as nat,
                    value,
                    *current,
                    placed,
                    list,
                    first,
                );
            }
        },
    }
}

/// Writes `value` into the document where the key leads. A document that is
/// no object is replaced by an empty object first; objects and arrays on the
/// way are made where they are missing. A key that cannot be parsed is an
/// error and leaves the document as it is.
pub fn set_value_by_key(data: &mut serde_json::Value, key: &str, value: serde_json::Value) -> (r:
    Result<(), KeyError>)
    ensures
        match parse_key_text(key@) {
            Err(e) => r is Err && r->Err_0@ == e && *final(data) == *old(data),
            Ok(segments) => r is Ok && exists|root: serde_json::Value|
                #![trigger root_start(*old(data), root)]
                root_start(*old(data), root) && written(root, segments, 0, value, *final(data)),
        },
        parse_key_text(key@) is Ok && (json_members(*old(data)) is None || is_empty_object(
            *old(data),
        )) ==> lookup(
            *final(data),
            parse_key_text(key@)->Ok_0,
            parse_key_text(key@)->Ok_0.len(),
        ) == Some(value),
{
    let segments = parse_key(key)?;
    if !json_is_object(data) {
        *data = json_empty_object();
    }
    let ghost root = *data;
    set_value_recursive(data, &segments, 0, value);
    proof {
        assert(root_start(*old(data), root));
        if json_members(*old(data)) is None || is_empty_object(*old(data)) {
            law_set_then_get(*old(data), key@, value, root, *data);
        }
    }
    Ok(())
}

} // verus!
