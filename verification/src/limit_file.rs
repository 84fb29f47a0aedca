//! The JSON a limits file holds.
//!
//! Keyed by qualified parameter name and not by index, because an index is a property of one
//! build of one definition and this file outlives both.
//!
//! The entries may be wrapped in a `parameters` member or stand as the whole document. A
//! qualified parameter name starts with `/`, so a file of parameters is never mistaken for a
//! wrapper.

use serde_json::Value as Json;
use vstd::prelude::*;
use vstd::string::*;

use crate::error::{EngineError, EngineErrorView};
use crate::float::Float64;
use crate::limits::{ends_agree, same_end, Limit, LimitSet, Range};
use crate::text::{decimal, push_decimal, same_text};

verus! {

/// What a JSON value is.
#[derive(Clone, Copy, PartialEq, Eq, Debug, Structural)]
pub enum JsonKind {
    Null,
    Bool,
    Number,
    Text,
    Array,
    Object,
}

/// Where a text stopped being JSON, and why.
#[derive(Debug)]
pub struct JsonFault {
    pub line: usize,
    pub column: usize,
    pub message: String,
}

/// A JSON value, as `serde_json` holds one.
#[verifier::external_type_specification]
#[verifier::external_body]
pub struct ExJsonValue(Json);

/// The JSON value that a text is, or the line, the column and the sentence of its first fault.
pub uninterp spec fn json_of(text: Seq<char>) -> Result<Json, (usize, usize, Seq<char>)>;

/// Which kind a JSON value is of.
pub uninterp spec fn json_kind_of(value: Json) -> JsonKind;

/// The members that a JSON value holds: their names, and their values. None where it is not an
/// object.
pub uninterp spec fn json_members_of(value: Json) -> Seq<(Seq<char>, Json)>;

/// The kind of what was parsed, or the fault.
pub open spec fn kind_view(found: Result<JsonKind, JsonFault>) -> Result<
    JsonKind,
    (usize, usize, Seq<char>),
> {
    match found {
        Ok(kind) => Ok(kind),
        Err(fault) => Err((fault.line, fault.column, fault.message@)),
    }
}

/// The value a parse found, or its fault.
pub open spec fn parse_view(found: Result<Json, JsonFault>) -> Result<
    Json,
    (usize, usize, Seq<char>),
> {
    match found {
        Ok(value) => Ok(value),
        Err(fault) => Err((fault.line, fault.column, fault.message@)),
    }
}

/// The names and values of a list of members.
pub open spec fn member_views(members: Seq<(String, Json)>) -> Seq<(Seq<char>, Json)> {
    members.map_values(|member: (String, Json)| (member.0@, member.1))
}

/// Parses a text with `serde_json::from_str` into a `serde_json::Value`, or hands on the line, the
/// column and the sentence of the error. The outcome is a function of the text.
#[verifier::external_body]
fn parse_json(text: &str) -> (r: Result<Json, JsonFault>)
    ensures
        parse_view(r) == json_of(text@),
{
    match serde_json::from_str::<Json>(text) {
        Ok(value) => Ok(value),
        Err(e) => Err(JsonFault { line: e.line(), column: e.column(), message: e.to_string() }),
    }
}

/// Which variant a `serde_json::Value` is. It is a function of the value.
#[verifier::external_body]
fn json_kind(value: &Json) -> (r: JsonKind)
    ensures
        r == json_kind_of(*value),
{
    match value {
        Json::Null => JsonKind::Null,
        Json::Bool(_) => JsonKind::Bool,
        Json::Number(_) => JsonKind::Number,
        Json::String(_) => JsonKind::Text,
        Json::Array(_) => JsonKind::Array,
        Json::Object(_) => JsonKind::Object,
    }
}

/// Takes the `serde_json::Map` of a value that is an object apart with its `into_iter`, which hands
/// out each name with its value; nothing where the value is not an object. What comes out is a
/// function of the value, and a map holds each name once.
#[verifier::external_body]
fn json_members(value: Json) -> (r: Vec<(String, Json)>)
    ensures
        member_views(r@) == json_members_of(value),
        json_kind_of(value) != JsonKind::Object ==> r@.len() == 0,
        forall|i: int, j: int|
            0 <= i < j < r@.len() ==> (#[trigger] r@[i]).0@ != (#[trigger] r@[j]).0@,
{
    match value {
        Json::Object(members) => members.into_iter().collect(),
        _ => Vec::new(),
    }
}

/// What a JSON value is called, for a message that says what was found instead.
pub open spec fn json_kind_text(kind: JsonKind) -> Seq<char> {
    match kind {
        JsonKind::Null => "null"@,
        JsonKind::Bool => "a boolean"@,
        JsonKind::Number => "a number"@,
        JsonKind::Text => "a string"@,
        JsonKind::Array => "an array"@,
        JsonKind::Object => "an object"@,
    }
}

/// What a JSON value is called, for a message that says what was found instead.
pub fn json_kind_name(kind: JsonKind) -> (r: &'static str)
    ensures
        r@ == json_kind_text(kind),
{
    match kind {
        JsonKind::Null => "null",
        JsonKind::Bool => "a boolean",
        JsonKind::Number => "a number",
        JsonKind::Text => "a string",
        JsonKind::Array => "an array",
        JsonKind::Object => "an object",
    }
}

/// The member the entries may be wrapped in.
pub const PARAMETERS_KEY: &'static str = "parameters";

/// Why a text that is not JSON is refused.
pub open spec fn syntax_text(line: usize, column: usize, message: Seq<char>) -> Seq<char> {
    "invalid JSON at line "@ + decimal(line as nat) + ", column "@ + decimal(column as nat) + ": "@
        + message
}

/// Why a document that is not an object is refused.
pub open spec fn not_an_object_text(kind: JsonKind) -> Seq<char> {
    "expected an object of parameter names, found "@ + json_kind_text(kind)
}

/// Why a wrapper that is not an object is refused.
pub open spec fn wrapper_text(kind: JsonKind) -> Seq<char> {
    "`parameters` is "@ + json_kind_text(kind) + ", not an object of parameter names"@
}

/// The names of members other than the wrapper, a comma and a space between each and the next.
pub open spec fn other_names(members: Seq<(Seq<char>, Json)>) -> Seq<char>
    decreases members.len(),
{
    if members.len() == 0 {
        Seq::empty()
    } else {
        let before = other_names(members.drop_last());
        let name = members.last().0;
        if name == PARAMETERS_KEY@ {
            before
        } else if other_count(members.drop_last()) == 0 {
            name
        } else {
            before + ", "@ + name
        }
    }
}

/// How many members are not the wrapper.
pub open spec fn other_count(members: Seq<(Seq<char>, Json)>) -> nat
    decreases members.len(),
{
    if members.len() == 0 {
        0
    } else {
        other_count(members.drop_last()) + (if members.last().0 == PARAMETERS_KEY@ {
            0nat
        } else {
            1nat
        })
    }
}

/// Why members beside the wrapper are refused.
pub open spec fn siblings_text(members: Seq<(Seq<char>, Json)>) -> Seq<char> {
    (if other_count(members) == 1 {
        "unknown member beside `parameters`: "@
    } else {
        "unknown members beside `parameters`: "@
    }) + other_names(members)
}

/// How a limits document is laid out.
#[derive(Debug)]
pub enum LimitLayout {
    /// The entries are the document.
    Bare(Vec<(String, Json)>),
    /// The entries are in this member of it.
    Wrapped(Json),
}

/// The place of the wrapper among members, if it is one of them.
pub open spec fn wrapper_place(members: Seq<(Seq<char>, Json)>) -> Option<int>
    decreases members.len(),
{
    if members.len() == 0 {
        None
    } else if members.last().0 == PARAMETERS_KEY@ {
        Some(members.len() - 1)
    } else {
        wrapper_place(members.drop_last())
    }
}

/// What a document's layout has to be, or why it is refused: its entries, or the value they are
/// wrapped in.
pub open spec fn layout_of(
    kind: Result<JsonKind, (usize, usize, Seq<char>)>,
    members: Seq<(Seq<char>, Json)>,
) -> Result<Result<Seq<(Seq<char>, Json)>, Json>, Seq<char>> {
    match kind {
        Err(fault) => Err(syntax_text(fault.0, fault.1, fault.2)),
        Ok(kind) => if kind != JsonKind::Object {
            Err(not_an_object_text(kind))
        } else {
            match wrapper_place(members) {
                None => Ok(Ok(members)),
                Some(place) => if members.len() > 1 {
                    Err(siblings_text(members))
                } else {
                    Ok(Err(members[place].1))
                },
            }
        },
    }
}

/// The entries of a wrapper, or why it is refused.
pub open spec fn wrapped_entries_of(
    kind: JsonKind,
    members: Seq<(Seq<char>, Json)>,
) -> Result<Seq<(Seq<char>, Json)>, Seq<char>> {
    if kind != JsonKind::Object {
        Err(wrapper_text(kind))
    } else {
        Ok(members)
    }
}

/// The entries of a limits document, or why it is refused.
pub open spec fn entries_of(text: Seq<char>) -> Result<Seq<(Seq<char>, Json)>, Seq<char>> {
    let layout = match json_of(text) {
        Err(fault) => layout_of(Err(fault), Seq::empty()),
        Ok(document) => layout_of(Ok(json_kind_of(document)), json_members_of(document)),
    };
    match layout {
        Err(reason) => Err(reason),
        Ok(Ok(members)) => Ok(members),
        Ok(Err(inner)) => wrapped_entries_of(json_kind_of(inner), json_members_of(inner)),
    }
}

fn syntax_message(fault: &JsonFault) -> (r: String)
    ensures
        r@ == syntax_text(fault.line, fault.column, fault.message@),
{
    let mut message: String = "invalid JSON at line ".to_owned();
    push_decimal(&mut message, fault.line as u64);
    message.append(", column ");
    push_decimal(&mut message, fault.column as u64);
    message.append(": ");
    message.append(fault.message.as_str());
    message
}

fn siblings_message(members: &Vec<(String, Json)>) -> (r: String)
    ensures
        r@ == siblings_text(member_views(members@)),
{
    let ghost views = member_views(members@);
    let mut names: String = String::new();
    let mut count: usize = 0;
    let mut index: usize = 0;
    assert(names@ =~= other_names(views.take(0)));
    while index < members.len()
        invariant
            index <= members@.len(),
            views == member_views(members@),
            count <= index,
            count == other_count(views.take(index as int)),
            names@ == other_names(views.take(index as int)),
        decreases members@.len() - index,
    {
        proof {
            let next = views.take(index + 1);
            assert(next.drop_last() =~= views.take(index as int));
            assert(next.last() == (members@[index as int].0@, members@[index as int].1));
        }
        if !same_text(members[index].0.as_str(), PARAMETERS_KEY) {
            if count > 0 {
                names.append(", ");
                names.append(members[index].0.as_str());
            } else {
                names = members[index].0.clone();
            }
            count = count + 1;
        }
        index = index + 1;
    }
    assert(views.take(index as int) =~= views);
    let mut message: String = if count == 1 {
        "unknown member beside `parameters`: ".to_owned()
    } else {
        "unknown members beside `parameters`: ".to_owned()
    };
    message.append(names.as_str());
    message
}

fn find_wrapper(members: &Vec<(String, Json)>) -> (r: Option<usize>)
    ensures
        r is Some <==> wrapper_place(member_views(members@)) is Some,
        r matches Some(place) ==> wrapper_place(member_views(members@)) == Some(place as int)
            && place < members@.len(),
{
    let ghost views = member_views(members@);
    let mut left: usize = members.len();
    assert(views.take(left as int) =~= views);
    while left > 0
        invariant
            left <= members@.len(),
            views == member_views(members@),
            wrapper_place(views) == wrapper_place(views.take(left as int)),
        decreases left,
    {
        proof {
            let here = views.take(left as int);
            assert(here.drop_last() =~= views.take(left - 1));
            assert(here.last() == (members@[left - 1].0@, members@[left - 1].1));
        }
        left = left - 1;
        if same_text(members[left].0.as_str(), PARAMETERS_KEY) {
            return Some(left);
        }
    }
    None
}

/// How a limits document is laid out, given the kind of its value and the members, or why it is
/// refused.
///
/// A member beside the wrapper is refused: a member nobody reads is a member the operator
/// thinks is doing something.
pub fn limit_layout(
    kind: Result<JsonKind, JsonFault>,
    members: Vec<(String, Json)>,
) -> (r: Result<LimitLayout, EngineError>)
    ensures
        match layout_of(kind_view(kind), member_views(members@)) {
            Err(reason) => r matches Err(error) && error@ == EngineErrorView::Config(reason),
            Ok(Ok(entries)) => r matches Ok(LimitLayout::Bare(bare)) && bare == members,
            Ok(Err(inner)) => r matches Ok(LimitLayout::Wrapped(value)) && value == inner,
        },
{
    let kind = match kind {
        Err(fault) => return Err(EngineError::config(syntax_message(&fault))),
        Ok(kind) => kind,
    };
    if kind != JsonKind::Object {
        let mut message: String = "expected an object of parameter names, found ".to_owned();
        message.append(json_kind_name(kind));
        return Err(EngineError::config(message));
    }
    match find_wrapper(&members) {
        None => Ok(LimitLayout::Bare(members)),
        Some(place) => {
            if members.len() > 1 {
                return Err(EngineError::config(siblings_message(&members)));
            }
            let mut members: Vec<(String, Json)> = members;
            let wrapper = members.swap_remove(place);
            Ok(LimitLayout::Wrapped(wrapper.1))
        },
    }
}

/// The entries of a wrapper, given the kind of its value and the members, or why it is refused.
pub fn wrapped_entries(kind: JsonKind, members: Vec<(String, Json)>) -> (r: Result<
    Vec<(String, Json)>,
    EngineError,
>)
    ensures
        match wrapped_entries_of(kind, member_views(members@)) {
            Err(reason) => r matches Err(error) && error@ == EngineErrorView::Config(reason),
            Ok(entries) => r == Ok::<Vec<(String, Json)>, EngineError>(members),
        },
{
    if kind != JsonKind::Object {
        let mut message: String = "`parameters` is ".to_owned();
        message.append(json_kind_name(kind));
        message.append(", not an object of parameter names");
        return Err(EngineError::config(message));
    }
    Ok(members)
}

/// One parameter's four thresholds.
///
/// Every end is optional, and an entry with none of them is a parameter that is listed and
/// unchecked.
#[derive(Clone, Copy, Debug)]
pub struct LimitEntry {
    /// Below this is a warning.
    pub warning_low: Option<Float64>,
    /// Above this is a warning.
    pub warning_high: Option<Float64>,
    /// Below this is an alarm.
    pub alarm_low: Option<Float64>,
    /// Above this is an alarm.
    pub alarm_high: Option<Float64>,
}

impl Default for LimitEntry {
    /// No threshold at all.
    fn default() -> (r: Self)
        ensures
            r == (LimitEntry {
                warning_low: None,
                warning_high: None,
                alarm_low: None,
                alarm_high: None,
            }),
    {
        LimitEntry { warning_low: None, warning_high: None, alarm_low: None, alarm_high: None }
    }
}

impl PartialEq for LimitEntry {
    /// Equal where the doubles are: a threshold that is not a number equals nothing.
    fn eq(&self, other: &Self) -> (r: bool) {
        ends_agree(self.warning_low, other.warning_low) && ends_agree(
            self.warning_high,
            other.warning_high,
        ) && ends_agree(self.alarm_low, other.alarm_low) && ends_agree(
            self.alarm_high,
            other.alarm_high,
        )
    }
}

impl vstd::std_specs::cmp::PartialEqSpecImpl for LimitEntry {
    open spec fn obeys_eq_spec() -> bool {
        true
    }

    open spec fn eq_spec(&self, other: &Self) -> bool {
        &&& same_end(self.warning_low, other.warning_low)
        &&& same_end(self.warning_high, other.warning_high)
        &&& same_end(self.alarm_low, other.alarm_low)
        &&& same_end(self.alarm_high, other.alarm_high)
    }
}

impl LimitEntry {
    /// The limit an entry describes.
    pub open spec fn limit(self) -> Limit {
        Limit {
            warning: Range { low: self.warning_low, high: self.warning_high },
            alarm: Range { low: self.alarm_low, high: self.alarm_high },
        }
    }

    /// The limit this entry describes.
    pub fn to_limit(self) -> (r: Limit)
        ensures
            r == self.limit(),
    {
        Limit {
            warning: Range { low: self.warning_low, high: self.warning_high },
            alarm: Range { low: self.alarm_low, high: self.alarm_high },
        }
    }
}

/// The thresholds of a limits file, by qualified parameter name.
#[derive(Clone, Debug)]
pub struct LimitFile {
    /// Each parameter's name and its thresholds.
    pub parameters: Vec<(String, LimitEntry)>,
}

impl Default for LimitFile {
    /// A file with no parameter in it.
    fn default() -> (r: Self)
        ensures
            r.parameters@.len() == 0,
    {
        LimitFile { parameters: Vec::new() }
    }
}

/// The limits of the first of several entries, a later one in place of an earlier one of the
/// same name.
pub open spec fn limits_of(parameters: Seq<(String, LimitEntry)>) -> Map<Seq<char>, Limit>
    decreases parameters.len(),
{
    if parameters.len() == 0 {
        Map::empty()
    } else {
        limits_of(parameters.drop_last()).insert(parameters.last().0@, parameters.last().1.limit())
    }
}

/// The first entry that would not read, if one did not.
pub open spec fn first_unread(entries: Seq<(String, Result<LimitEntry, String>)>) -> Option<int>
    decreases entries.len(),
{
    if entries.len() == 0 {
        None
    } else if first_unread(entries.drop_last()) is Some {
        first_unread(entries.drop_last())
    } else if entries.last().1 is Err {
        Some(entries.len() - 1)
    } else {
        None
    }
}

/// Why an entry that would not read is refused.
pub open spec fn unread_text(name: Seq<char>, reason: Seq<char>) -> Seq<char> {
    "parameter `"@ + name + "`: "@ + reason
}

/// What a limits file is once each of its entries has been read: refused by the name of the first
/// that would not read, or all of them, in order.
pub open spec fn is_file_of(
    file: Result<LimitFile, EngineError>,
    entries: Seq<(String, Result<LimitEntry, String>)>,
) -> bool {
    match first_unread(entries) {
        Some(place) => {
            &&& 0 <= place < entries.len()
            &&& entries[place].1 matches Err(reason) && file matches Err(error) && error@
                == EngineErrorView::Config(unread_text(entries[place].0@, reason@))
        },
        None => {
            &&& file matches Ok(read) && read.parameters@.len() == entries.len() && forall|i: int|
                0 <= i < entries.len() ==> (#[trigger] read.parameters@[i]).0@ == entries[i].0@
                    && entries[i].1 == Ok::<LimitEntry, String>(read.parameters@[i].1)
        },
    }
}

/// Whether an entry was read, under its name.
pub open spec fn is_read<F: Fn(&Json) -> Result<LimitEntry, String>>(
    read: F,
    entry: (Seq<char>, Json),
    outcome: (String, Result<LimitEntry, String>),
) -> bool {
    &&& outcome.0@ == entry.0
    &&& read.ensures((&entry.1,), outcome.1)
}

/// Whether entries were read, each under its name.
pub open spec fn are_read<F: Fn(&Json) -> Result<LimitEntry, String>>(
    read: F,
    entries: Seq<(Seq<char>, Json)>,
    outcomes: Seq<(String, Result<LimitEntry, String>)>,
) -> bool {
    &&& outcomes.len() == entries.len()
    &&& forall|i: int| 0 <= i < entries.len() ==> is_read(read, entries[i], #[trigger] outcomes[i])
}

/// Whether a limits file is what a text holds, as `read` reads its entries: refused where the text
/// is, and otherwise what each of its entries read as.
pub open spec fn is_read_from<F: Fn(&Json) -> Result<LimitEntry, String>>(
    file: Result<LimitFile, EngineError>,
    text: Seq<char>,
    read: F,
) -> bool {
    match entries_of(text) {
        Err(reason) => file matches Err(error) && error@ == EngineErrorView::Config(reason),
        Ok(entries) => exists|outcomes: Seq<(String, Result<LimitEntry, String>)>|
            #[trigger] are_read(read, entries, outcomes) && is_file_of(file, outcomes),
    }
}

/// Whether two entries read the same.
pub open spec fn same_outcome(
    one: Result<LimitEntry, String>,
    other: Result<LimitEntry, String>,
) -> bool {
    match (one, other) {
        (Ok(a), Ok(b)) => a == b,
        (Err(a), Err(b)) => a@ == b@,
        _ => false,
    }
}

/// Whether an entry reads the same whenever it is read.
pub open spec fn reads_alike<F: Fn(&Json) -> Result<LimitEntry, String>>(read: F) -> bool {
    forall|
        value: Json,
        one: Result<LimitEntry, String>,
        other: Result<LimitEntry, String>,
    |
        #[trigger] read.ensures((&value,), one) && #[trigger] read.ensures((&value,), other)
            ==> same_outcome(one, other)
}

/// Whether two files have the same thresholds under the same names, in the same order.
pub open spec fn same_parameters(
    one: Seq<(String, LimitEntry)>,
    other: Seq<(String, LimitEntry)>,
) -> bool {
    &&& one.len() == other.len()
    &&& forall|i: int|
        0 <= i < one.len() ==> (#[trigger] one[i]).0@ == other[i].0@ && one[i].1 == other[i].1
}

/// Whether two files are the same: the same thresholds, or refused with the same words.
pub open spec fn same_file(
    one: Result<LimitFile, EngineError>,
    other: Result<LimitFile, EngineError>,
) -> bool {
    match (one, other) {
        (Ok(a), Ok(b)) => same_parameters(a.parameters@, b.parameters@) && limits_of(
            a.parameters@,
        ) == limits_of(b.parameters@),
        (Err(a), Err(b)) => a@ == b@ && a@ is Config,
        _ => false,
    }
}

impl LimitFile {
    /// The limits file that a text is. `read` reads the thresholds of one entry.
    pub fn from_json<F: Fn(&Json) -> Result<LimitEntry, String>>(text: &str, read: F) -> (r: Result<
        Self,
        EngineError,
    >)
        requires
            forall|entry: &Json| #[trigger] read.requires((entry,)),
        ensures
            is_read_from(r, text@, read),
    {
        let found: Vec<(String, Json)> = match Self::entries(text) {
            Ok(found) => found,
            Err(error) => return Err(error),
        };
        let ghost written = member_views(found@);
        let mut outcomes: Vec<(String, Result<LimitEntry, String>)> = Vec::with_capacity(found.len());
        let mut index: usize = 0;
        while index < found.len()
            invariant
                index <= found@.len(),
                written == member_views(found@),
                forall|entry: &Json| #[trigger] read.requires((entry,)),
                are_read(read, written.take(index as int), outcomes@),
            decreases found@.len() - index,
        {
            let entry: &(String, Json) = &found[index];
            let outcome = read(&entry.1);
            let ghost before = outcomes@;
            outcomes.push((entry.0.clone(), outcome));
            proof {
                let next = written.take(index + 1);
                assert forall|i: int| 0 <= i < next.len() implies is_read(
                    read,
                    next[i],
                    #[trigger] outcomes@[i],
                ) by {
                    if i < index {
                        assert(outcomes@[i] == before[i]);
                        assert(next[i] == written.take(index as int)[i]);
                    }
                }
            }
            index = index + 1;
        }
        assert(written.take(index as int) =~= written);
        Self::from_entries(outcomes)
    }

    /// The entries of a limits file: each parameter's name, and its thresholds.
    ///
    /// The first pass over the document is the syntax, where a line and a column mean something;
    /// the entries are read one at a time, so that an entry's failure can name the entry.
    pub fn entries(text: &str) -> (r: Result<Vec<(String, Json)>, EngineError>)
        ensures
            match entries_of(text@) {
                Err(reason) => r matches Err(error) && error@ == EngineErrorView::Config(reason),
                Ok(entries) => r matches Ok(found) && member_views(found@) == entries,
            },
    {
        let layout = match parse_json(text) {
            Err(fault) => limit_layout(Err(fault), Vec::new()),
            Ok(document) => {
                let kind = json_kind(&document);
                limit_layout(Ok(kind), json_members(document))
            },
        };
        match layout {
            Err(error) => Err(error),
            Ok(LimitLayout::Bare(members)) => Ok(members),
            Ok(LimitLayout::Wrapped(inner)) => {
                let kind = json_kind(&inner);
                wrapped_entries(kind, json_members(inner))
            },
        }
    }

    /// A limits file from what each of its entries read as. The first that would not read is
    /// named.
    pub fn from_entries(entries: Vec<(String, Result<LimitEntry, String>)>) -> (r: Result<
        Self,
        EngineError,
    >)
        ensures
            is_file_of(r, entries@),
    {
        let mut parameters: Vec<(String, LimitEntry)> = Vec::with_capacity(entries.len());
        let mut index: usize = 0;
        while index < entries.len()
            invariant
                index <= entries@.len(),
                first_unread(entries@.take(index as int)) is None,
                parameters@.len() == index,
                forall|i: int|
                    0 <= i < index ==> (#[trigger] parameters@[i]).0@ == entries@[i].0@
                        && entries@[i].1 == Ok::<LimitEntry, String>(parameters@[i].1),
            decreases entries@.len() - index,
        {
            proof {
                let next = entries@.take(index + 1);
                assert(next.drop_last() =~= entries@.take(index as int));
            }
            let entry: &(String, Result<LimitEntry, String>) = &entries[index];
            match &entry.1 {
                Err(reason) => {
                    let mut message: String = "parameter `".to_owned();
                    message.append(entry.0.as_str());
                    message.append("`: ");
                    message.append(reason.as_str());
                    proof {
                        lemma_first_unread(entries@, index + 1);
                    }
                    return Err(EngineError::config(message));
                },
                Ok(thresholds) => {
                    parameters.push((entry.0.clone(), *thresholds));
                },
            }
            index = index + 1;
        }
        assert(entries@.take(index as int) =~= entries@);
        Ok(LimitFile { parameters })
    }

    /// Turns the file into the set the store is checked against.
    ///
    /// A name that is in the file and not in the definition is kept: the set is looked up by
    /// name, and a parameter that never arrives is never checked.
    pub fn into_limit_set(self) -> (r: LimitSet)
        ensures
            r.wf(),
            r@ == limits_of(self.parameters@),
    {
        let mut set = LimitSet::new();
        let mut index: usize = 0;
        assert(self.parameters@.take(0) =~= Seq::<(String, LimitEntry)>::empty());
        while index < self.parameters.len()
            invariant
                index <= self.parameters@.len(),
                set.wf(),
                set@ == limits_of(self.parameters@.take(index as int)),
            decreases self.parameters@.len() - index,
        {
            proof {
                let next = self.parameters@.take(index + 1);
                assert(next.drop_last() =~= self.parameters@.take(index as int));
            }
            let entry: &(String, LimitEntry) = &self.parameters[index];
            set.insert(entry.0.clone(), entry.1.to_limit());
            index = index + 1;
        }
        assert(self.parameters@.take(index as int) =~= self.parameters@);
        set
    }
}

proof fn lemma_first_unread(entries: Seq<(String, Result<LimitEntry, String>)>, count: int)
    requires
        0 <= count <= entries.len(),
        first_unread(entries.take(count)) is Some,
    ensures
        first_unread(entries) == first_unread(entries.take(count)),
    decreases entries.len() - count,
{
    if count < entries.len() {
        assert(entries.take(count + 1).drop_last() =~= entries.take(count));
        lemma_first_unread(entries, count + 1);
    } else {
        assert(entries.take(count) =~= entries);
    }
}

/// A file's name in front of what its contents are refused for.
pub open spec fn file_text(path: Seq<char>, reason: Seq<char>) -> Seq<char> {
    path + ": "@ + reason
}

/// What a file is refused for, with its path in front of the words.
pub open spec fn refused_at(path: Seq<char>, refusal: EngineErrorView) -> EngineErrorView {
    match refusal {
        EngineErrorView::Io(reason) => EngineErrorView::Io(file_text(path, reason)),
        other => EngineErrorView::Config(file_text(path, other.text())),
    }
}

/// The limits of a file that was read, or what is wrong with it, with its path in the message:
/// a station is started with a relative path from a shell whose working directory nobody
/// remembers.
///
/// A file that cannot be read is the filesystem's refusal; one that does not parse is the
/// operator's.
pub fn load_limits(path: &str, file: Result<LimitFile, EngineError>) -> (r: Result<
    LimitSet,
    EngineError,
>)
    ensures
        r is Ok <==> file is Ok,
        file matches Err(refusal) ==> (r matches Err(error) && error@ == refused_at(
            path@,
            refusal@,
        )),
        match file {
            Ok(file) => r matches Ok(set) && set.wf() && set@ == limits_of(file.parameters@),
            Err(EngineError::Io(reason)) => r matches Err(error) && error@ == EngineErrorView::Io(
                file_text(path@, reason@),
            ),
            Err(refusal) => r matches Err(error) && error@ == EngineErrorView::Config(
                file_text(path@, refusal@.text()),
            ),
        },
{
    match file {
        Ok(file) => Ok(file.into_limit_set()),
        Err(EngineError::Io(reason)) => {
            let mut message: String = path.to_owned();
            message.append(": ");
            message.append(reason.as_str());
            Err(EngineError::Io(message))
        },
        Err(error) => {
            let mut message: String = path.to_owned();
            message.append(": ");
            message.append(error.to_string().as_str());
            Err(EngineError::config(message))
        },
    }
}

/// Whether the document of one text is a wrapper and nothing else, what is inside it is the
/// document of another, and that one is an object of entries.
pub open spec fn wraps(text: Seq<char>, inner: Seq<char>) -> bool {
    json_of(text) matches Ok(document) && json_of(inner) matches Ok(entries) && {
        &&& json_kind_of(document) == JsonKind::Object
        &&& json_members_of(document) == seq![(PARAMETERS_KEY@, entries)]
        &&& json_kind_of(entries) == JsonKind::Object
        &&& wrapper_place(json_members_of(entries)) is None
    }
}

/// The wrapper may be left off: a document whose only member is the wrapper has the entries of
/// what is inside it, and one without the wrapper is its own entries.
pub proof fn the_wrapper_may_be_left_off(text: Seq<char>, inner: Seq<char>)
    requires
        wraps(text, inner),
    ensures
        entries_of(text) == entries_of(inner),
        entries_of(inner) == Ok::<Seq<(Seq<char>, Json)>, Seq<char>>(
            json_members_of(json_of(inner)->Ok_0),
        ),
{
}

proof fn lemma_same_unread(
    one: Seq<(String, Result<LimitEntry, String>)>,
    other: Seq<(String, Result<LimitEntry, String>)>,
)
    requires
        one.len() == other.len(),
        forall|i: int| 0 <= i < one.len() ==> same_outcome((#[trigger] one[i]).1, other[i].1),
    ensures
        first_unread(one) == first_unread(other),
    decreases one.len(),
{
    if one.len() > 0 {
        let (a, b) = (one.drop_last(), other.drop_last());
        assert forall|i: int| 0 <= i < a.len() implies same_outcome(
            (#[trigger] a[i]).1,
            b[i].1,
        ) by {
            assert(same_outcome(one[i].1, other[i].1));
        }
        lemma_same_unread(a, b);
        assert(same_outcome(one[one.len() - 1].1, other[one.len() - 1].1));
    }
}

proof fn lemma_same_limits(one: Seq<(String, LimitEntry)>, other: Seq<(String, LimitEntry)>)
    requires
        same_parameters(one, other),
    ensures
        limits_of(one) == limits_of(other),
    decreases one.len(),
{
    if one.len() > 0 {
        let (a, b) = (one.drop_last(), other.drop_last());
        assert forall|i: int| 0 <= i < a.len() implies (#[trigger] a[i]).0@ == b[i].0@ && a[i].1
            == b[i].1 by {
            assert(one[i].0@ == other[i].0@);
        }
        lemma_same_limits(a, b);
        assert(one[one.len() - 1].0@ == other[one.len() - 1].0@);
    }
}

/// A document and the same entries in a wrapper are the same file: both read, with the same
/// thresholds, or both are refused with the same words.
pub proof fn the_wrapper_changes_nothing<F: Fn(&Json) -> Result<LimitEntry, String>>(
    text: Seq<char>,
    inner: Seq<char>,
    read: F,
    wrapped: Result<LimitFile, EngineError>,
    bare: Result<LimitFile, EngineError>,
)
    requires
        wraps(text, inner),
        reads_alike(read),
        is_read_from(wrapped, text, read),
        is_read_from(bare, inner, read),
    ensures
        same_file(wrapped, bare),
{
    the_wrapper_may_be_left_off(text, inner);
    let entries = json_members_of(json_of(inner)->Ok_0);
    let one = choose|outcomes: Seq<(String, Result<LimitEntry, String>)>|
        #[trigger] are_read(read, entries, outcomes) && is_file_of(wrapped, outcomes);
    let other = choose|outcomes: Seq<(String, Result<LimitEntry, String>)>|
        #[trigger] are_read(read, entries, outcomes) && is_file_of(bare, outcomes);
    assert forall|i: int| 0 <= i < entries.len() implies same_outcome(
        (#[trigger] one[i]).1,
        other[i].1,
    ) && one[i].0@ == other[i].0@ by {
        assert(is_read(read, entries[i], one[i]));
        assert(is_read(read, entries[i], other[i]));
    }
    lemma_same_unread(one, other);
    match first_unread(one) {
        Some(place) => {
            assert(same_outcome(one[place].1, other[place].1));
        },
        None => {
            let (a, b) = (wrapped->Ok_0.parameters@, bare->Ok_0.parameters@);
            assert forall|i: int| 0 <= i < a.len() implies (#[trigger] a[i]).0@ == b[i].0@
                && a[i].1 == b[i].1 by {
                assert(same_outcome(one[i].1, other[i].1));
                assert(b[i].0@ == other[i].0@);
            }
            lemma_same_limits(a, b);
        },
    }
}

proof fn lemma_limited_names(parameters: Seq<(String, LimitEntry)>, name: Seq<char>)
    ensures
        limits_of(parameters).contains_key(name) <==> exists|i: int|
            0 <= i < parameters.len() && (#[trigger] parameters[i]).0@ == name,
    decreases parameters.len(),
{
    if parameters.len() > 0 {
        let rest = parameters.drop_last();
        lemma_limited_names(rest, name);
        if rest.len() > 0 && limits_of(rest).contains_key(name) {
            let i = choose|i: int| 0 <= i < rest.len() && (#[trigger] rest[i]).0@ == name;
            assert(parameters[i].0@ == name);
        }
        if parameters.last().0@ == name {
            assert(parameters[parameters.len() - 1].0@ == name);
        }
        if exists|i: int| 0 <= i < parameters.len() && (#[trigger] parameters[i]).0@ == name {
            let i = choose|i: int|
                0 <= i < parameters.len() && (#[trigger] parameters[i]).0@ == name;
            if i < rest.len() {
                assert(rest[i].0@ == name);
            }
        }
    }
}

/// What a file limits is exactly what its document names.
pub proof fn every_entry_is_a_limit<F: Fn(&Json) -> Result<LimitEntry, String>>(
    text: Seq<char>,
    read: F,
    file: LimitFile,
    name: Seq<char>,
)
    requires
        is_read_from(Ok(file), text, read),
    ensures
        entries_of(text) matches Ok(entries) && (limits_of(file.parameters@).contains_key(name)
            <==> exists|i: int| 0 <= i < entries.len() && (#[trigger] entries[i]).0 == name),
{
    let whole = Ok::<LimitFile, EngineError>(file);
    let entries = entries_of(text)->Ok_0;
    let outcomes = choose|outcomes: Seq<(String, Result<LimitEntry, String>)>|
        #[trigger] are_read(read, entries, outcomes) && is_file_of(whole, outcomes);
    lemma_limited_names(file.parameters@, name);
    assert forall|i: int| 0 <= i < entries.len() implies (#[trigger] entries[i]).0
        == file.parameters@[i].0@ by {
        assert(is_read(read, entries[i], outcomes[i]));
    }
    if limits_of(file.parameters@).contains_key(name) {
        let i = choose|i: int|
            0 <= i < file.parameters@.len() && (#[trigger] file.parameters@[i]).0@ == name;
        assert(entries[i].0 == name);
    }
}

/// A qualified parameter name starts with `/`, so a document of parameters is never mistaken for a
/// wrapper.
pub proof fn parameters_are_no_wrapper(members: Seq<(Seq<char>, Json)>)
    requires
        forall|i: int|
            0 <= i < members.len() ==> (#[trigger] members[i]).0.len() > 0 && members[i].0[0] == '/',
    ensures
        wrapper_place(members) is None,
        layout_of(Ok(JsonKind::Object), members) == Ok::<
            Result<Seq<(Seq<char>, Json)>, Json>,
            Seq<char>,
        >(Ok(members)),
    decreases members.len(),
{
    reveal_strlit("parameters");
    if members.len() > 0 {
        let rest = members.drop_last();
        assert forall|i: int| 0 <= i < rest.len() implies (#[trigger] rest[i]).0.len() > 0
            && rest[i].0[0] == '/' by {
            assert(members[i].0[0] == '/');
        }
        parameters_are_no_wrapper(rest);
        assert(members[members.len() - 1].0[0] == '/');
    }
}

/// A member beside the wrapper is refused rather than ignored.
pub proof fn siblings_are_refused(text: Seq<char>, document: Json)
    requires
        json_of(text) == Ok::<Json, (usize, usize, Seq<char>)>(document),
        json_kind_of(document) == JsonKind::Object,
        wrapper_place(json_members_of(document)) is Some,
        json_members_of(document).len() > 1,
    ensures
        entries_of(text) == Err::<Seq<(Seq<char>, Json)>, Seq<char>>(
            siblings_text(json_members_of(document)),
        ),
{
}

} // verus!
