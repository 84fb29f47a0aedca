//! What a limits file promises an operator.

use serde_json::Value as Json;
use vstd::prelude::*;

use crate::error::{EngineError, EngineErrorView};
use crate::laws::text::shows;
use crate::limit_file::{
    entries_of, file_text, first_unread, is_file_of, json_kind_of, json_kind_text,
    json_members_of, json_of, layout_of, limits_of, not_an_object_text, other_count, other_names,
    refused_at, siblings_text, syntax_text, unread_text, wrapped_entries_of, wrapper_place, wrapper_text,
    JsonKind, LimitEntry, LimitFile,
};
use crate::text::decimal;

verus! {

/// An entry's thresholds are the ends of its ranges: each of the four is where it belongs, and an
/// end that is not given is open.
pub proof fn each_threshold_is_an_end(entry: LimitEntry)
    ensures
        entry.limit().warning.low == entry.warning_low,
        entry.limit().warning.high == entry.warning_high,
        entry.limit().alarm.low == entry.alarm_low,
        entry.limit().alarm.high == entry.alarm_high,
{
}

/// A file limits each of its parameters by its own entry, and by the last where it has several.
pub proof fn each_entry_limits_its_parameter(
    parameters: Seq<(String, LimitEntry)>,
    entry: (String, LimitEntry),
    name: Seq<char>,
)
    ensures
        limits_of(Seq::<(String, LimitEntry)>::empty()).dom().len() == 0,
        limits_of(parameters.push(entry)).contains_key(entry.0@),
        limits_of(parameters.push(entry))[entry.0@] == entry.1.limit(),
        name != entry.0@ ==> (limits_of(parameters.push(entry)).contains_key(name) <==> limits_of(
            parameters,
        ).contains_key(name)),
        name != entry.0@ && limits_of(parameters).contains_key(name) ==> limits_of(
            parameters.push(entry),
        )[name] == limits_of(parameters)[name],
{
    assert(parameters.push(entry).drop_last() =~= parameters);
    assert(limits_of(Seq::<(String, LimitEntry)>::empty()).dom() =~= Set::empty());
}

/// A file whose entries all read has all of them, under their names and in their order.
pub proof fn a_file_that_reads_has_every_entry(
    file: Result<LimitFile, EngineError>,
    entries: Seq<(String, Result<LimitEntry, String>)>,
)
    requires
        is_file_of(file, entries),
        forall|i: int| 0 <= i < entries.len() ==> (#[trigger] entries[i]).1 is Ok,
    ensures
        file is Ok,
        file->Ok_0.parameters@.len() == entries.len(),
        forall|i: int|
            0 <= i < entries.len() ==> (#[trigger] file->Ok_0.parameters@[i]).0@ == entries[i].0@
                && file->Ok_0.parameters@[i].1 == entries[i].1->Ok_0,
{
    lemma_none_unread(entries);
}

proof fn lemma_none_unread(entries: Seq<(String, Result<LimitEntry, String>)>)
    requires
        forall|i: int| 0 <= i < entries.len() ==> (#[trigger] entries[i]).1 is Ok,
    ensures
        first_unread(entries) is None,
    decreases entries.len(),
{
    if entries.len() > 0 {
        let rest = entries.drop_last();
        assert forall|i: int| 0 <= i < rest.len() implies (#[trigger] rest[i]).1 is Ok by {
            assert(entries[i].1 is Ok);
        }
        lemma_none_unread(rest);
        assert(entries[entries.len() - 1].1 is Ok);
    }
}

proof fn lemma_first_unread_at(
    entries: Seq<(String, Result<LimitEntry, String>)>,
    place: int,
)
    requires
        0 <= place < entries.len(),
        entries[place].1 is Err,
        forall|i: int| 0 <= i < place ==> (#[trigger] entries[i]).1 is Ok,
    ensures
        first_unread(entries) == Some(place),
    decreases entries.len(),
{
    let rest = entries.drop_last();
    assert forall|i: int| 0 <= i < place && i < rest.len() implies (#[trigger] rest[i]).1 is Ok by {
        assert(entries[i].1 is Ok);
    }
    if place < rest.len() {
        lemma_first_unread_at(rest, place);
    } else {
        lemma_none_unread(rest);
    }
}

/// A file with entries that do not read is refused for the first of them, by the name of its
/// parameter and why it does not read.
pub proof fn a_file_is_refused_for_the_first_entry(
    file: Result<LimitFile, EngineError>,
    entries: Seq<(String, Result<LimitEntry, String>)>,
    place: int,
)
    requires
        is_file_of(file, entries),
        0 <= place < entries.len(),
        entries[place].1 is Err,
        forall|i: int| 0 <= i < place ==> (#[trigger] entries[i]).1 is Ok,
    ensures
        file is Err,
        file->Err_0@ is Config,
        shows(file->Err_0@->Config_0, "parameter `"@, entries[place].0@, "`: "@),
        shows(file->Err_0@->Config_0, "`: "@, entries[place].1->Err_0@, Seq::empty()),
{
    lemma_first_unread_at(entries, place);
    let none = Seq::<char>::empty();
    let (name, reason) = (entries[place].0@, entries[place].1->Err_0@);
    let text = unread_text(name, reason);
    assert(text =~= none + "parameter `"@ + name + "`: "@ + reason);
    assert(text =~= ("parameter `"@ + name) + "`: "@ + reason + none + none);
}

/// A text that is not JSON is refused with the line and the column of its fault; a document that is
/// not an object, and a wrapper that is not one, with what it is instead.
pub proof fn what_is_no_file_is_refused(text: Seq<char>, inner: Json)
    ensures
        json_of(text) matches Err(fault) ==> (entries_of(text) matches Err(reason) && shows(
            reason,
            " line "@,
            decimal(fault.0 as nat),
            ", column "@,
        ) && shows(reason, ", column "@, decimal(fault.1 as nat), ": "@) && shows(
            reason,
            ": "@,
            fault.2,
            Seq::empty(),
        )),
        json_of(text) matches Ok(document) ==> (json_kind_of(document) != JsonKind::Object ==> (
        entries_of(text) matches Err(reason) && shows(
            reason,
            "found "@,
            json_kind_text(json_kind_of(document)),
            Seq::empty(),
        ))),
        json_of(text) matches Ok(document) ==> (json_kind_of(document) == JsonKind::Object
            && json_members_of(document) == seq![("parameters"@, inner)] && json_kind_of(inner)
            != JsonKind::Object ==> (entries_of(text) matches Err(reason) && shows(
            reason,
            "`parameters` is "@,
            json_kind_text(json_kind_of(inner)),
            ", not an object"@,
        ))),
{
    let none = Seq::<char>::empty();
    reveal_strlit("invalid JSON at line ");
    reveal_strlit(" line ");
    reveal_strlit("expected an object of parameter names, found ");
    reveal_strlit("found ");
    reveal_strlit(", not an object of parameter names");
    reveal_strlit(", not an object");
    let head = "invalid JSON at line "@;
    assert(head =~= head.take(15) + " line "@);
    if let Err(fault) = json_of(text) {
        let said = syntax_text(fault.0, fault.1, fault.2);
        let (l, c) = (decimal(fault.0 as nat), decimal(fault.1 as nat));
        assert(said =~= head.take(15) + " line "@ + l + ", column "@ + (c + ": "@ + fault.2));
        assert(said =~= (head + l) + ", column "@ + c + ": "@ + fault.2);
        assert(said =~= (head + l + ", column "@ + c) + ": "@ + fault.2 + none + none);
    }
    let expected = "expected an object of parameter names, found "@;
    assert(expected =~= expected.take(39) + "found "@);
    let not = ", not an object of parameter names"@;
    assert(not =~= ", not an object"@ + not.skip(15));
    if let Ok(document) = json_of(text) {
        let kind = json_kind_of(document);
        assert(not_an_object_text(kind) =~= expected.take(39) + "found "@ + json_kind_text(kind)
            + none + none);
        let within = json_kind_of(inner);
        assert(wrapper_text(within) =~= none + "`parameters` is "@ + json_kind_text(within)
            + ", not an object"@ + not.skip(15));
    }
}

/// A document without a wrapper is its own entries, all of them; one that is a wrapper and nothing
/// else has the entries inside it.
pub proof fn a_document_is_its_entries(text: Seq<char>, document: Json, inner: Json)
    requires
        json_of(text) == Ok::<Json, (usize, usize, Seq<char>)>(document),
        json_kind_of(document) == JsonKind::Object,
    ensures
        (forall|i: int|
            0 <= i < json_members_of(document).len() ==> (#[trigger] json_members_of(
                document,
            )[i]).0 != "parameters"@) ==> entries_of(text) == Ok::<
            Seq<(Seq<char>, Json)>,
            Seq<char>,
        >(json_members_of(document)),
        json_members_of(document) == seq![("parameters"@, inner)] && json_kind_of(inner)
            == JsonKind::Object ==> entries_of(text) == Ok::<Seq<(Seq<char>, Json)>, Seq<char>>(
            json_members_of(inner),
        ),
{
    let members = json_members_of(document);
    if forall|i: int| 0 <= i < members.len() ==> (#[trigger] members[i]).0 != "parameters"@ {
        lemma_no_wrapper(members);
    }
}

proof fn lemma_no_wrapper(members: Seq<(Seq<char>, Json)>)
    requires
        forall|i: int| 0 <= i < members.len() ==> (#[trigger] members[i]).0 != "parameters"@,
    ensures
        wrapper_place(members) is None,
    decreases members.len(),
{
    if members.len() > 0 {
        let rest = members.drop_last();
        assert forall|i: int| 0 <= i < rest.len() implies (#[trigger] rest[i]).0
            != "parameters"@ by {
            assert(members[i].0 != "parameters"@);
        }
        lemma_no_wrapper(rest);
        assert(members[members.len() - 1].0 != "parameters"@);
    }
}

/// A member beside the wrapper refuses the file, and every such member is named, in order, with a
/// comma between each and the next.
pub proof fn members_beside_the_wrapper_are_named(
    members: Seq<(Seq<char>, Json)>,
    member: (Seq<char>, Json),
)
    ensures
        other_count(Seq::<(Seq<char>, Json)>::empty()) == 0,
        member.0 == "parameters"@ ==> other_names(members.push(member)) == other_names(members)
            && other_count(members.push(member)) == other_count(members),
        member.0 != "parameters"@ ==> other_count(members.push(member)) == other_count(members) + 1,
        member.0 != "parameters"@ && other_count(members) == 0 ==> other_names(members.push(member))
            == member.0,
        member.0 != "parameters"@ && other_count(members) > 0 ==> other_names(members.push(member))
            == other_names(members) + seq![',', ' '] + member.0,
        shows(siblings_text(members), " beside `parameters`: "@, other_names(members), Seq::empty()),
        wrapper_place(members) is Some && members.len() > 1 ==> layout_of(
            Ok(JsonKind::Object),
            members,
        ) == Err::<Result<Seq<(Seq<char>, Json)>, Json>, Seq<char>>(siblings_text(members)),
{
    assert(members.push(member).drop_last() =~= members);
    reveal_strlit(", ");
    assert(", "@ =~= seq![',', ' ']);
    reveal_strlit("unknown member beside `parameters`: ");
    reveal_strlit("unknown members beside `parameters`: ");
    reveal_strlit(" beside `parameters`: ");
    let none = Seq::<char>::empty();
    let one = "unknown member beside `parameters`: "@;
    let more = "unknown members beside `parameters`: "@;
    let beside = " beside `parameters`: "@;
    assert(one =~= one.take(14) + beside);
    assert(more =~= more.take(15) + beside);
    if other_count(members) == 1 {
        assert(siblings_text(members) =~= one.take(14) + beside + other_names(members) + none
            + none);
    } else {
        assert(siblings_text(members) =~= more.take(15) + beside + other_names(members) + none
            + none);
    }
}

/// What a JSON value is called tells its kind from every other.
pub proof fn kinds_are_told_apart(a: JsonKind, b: JsonKind)
    ensures
        json_kind_text(a) == json_kind_text(b) ==> a == b,
{
    reveal_strlit("null");
    reveal_strlit("a boolean");
    reveal_strlit("a number");
    reveal_strlit("a string");
    reveal_strlit("an array");
    reveal_strlit("an object");
    let (number, string, array) = ("a number"@, "a string"@, "an array"@);
    assert(number[2] == 'n' && string[2] == 's' && array[2] == ' ');
    let (boolean, object) = ("a boolean"@, "an object"@);
    assert(boolean[2] == 'b' && object[2] == ' ');
    let (x, y) = (json_kind_text(a), json_kind_text(b));
    if x == y {
        assert(x.len() == y.len());
        assert(x[2] == y[2]);
    }
}

/// What is wrong with a file is said behind its path.
pub proof fn a_path_comes_before_the_reason(path: Seq<char>, reason: Seq<char>)
    ensures
        file_text(path, reason) == path + seq![':', ' '] + reason,
{
    reveal_strlit(": ");
    assert(": "@ =~= seq![':', ' ']);
}

/// An object in a wrapper is its entries; what is no object is not.
pub proof fn a_wrapper_is_its_entries(kind: JsonKind, members: Seq<(Seq<char>, Json)>)
    ensures
        wrapped_entries_of(kind, members) is Ok <==> kind == JsonKind::Object,
        kind == JsonKind::Object ==> wrapped_entries_of(kind, members)->Ok_0 == members,
{
}

/// A file that cannot be read stays the filesystem's refusal, and any other is the operator's; both
/// say the path and the reason.
pub proof fn a_refused_file_says_its_path(path: Seq<char>, reason: Seq<char>)
    ensures
        refused_at(path, EngineErrorView::Io(reason)) == EngineErrorView::Io(
            path + seq![':', ' '] + reason,
        ),
        refused_at(path, EngineErrorView::Config(reason)) == EngineErrorView::Config(
            path + seq![':', ' '] + reason,
        ),
{
    a_path_comes_before_the_reason(path, reason);
}

} // verus!
