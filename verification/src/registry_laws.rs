//! What the registry of tools is for: a tool is called under the name it is registered under, is
//! offered while its group is active, and what it returns is what the call gives.

use crate::image_gen::PreparedImage;
use crate::registry::{AllowedCaller, ToolCall, ToolDefinition, ToolError, ToolInfo, ToolOutput, ToolOutputFormat, ToolReturn, ToolView};
use crate::registry;
use vstd::prelude::*;
use vstd::string::*;

verus! {

/// The tool of a name is the first that is registered under it; there is none exactly where none is.
pub proof fn law_tool_is_found_by_its_name(tools: Seq<ToolView>, name: Seq<char>, i: int)
    ensures
        registry::tool_named(tools, name) matches Some(t) ==> t.key == name && tools.contains(t),
        registry::tool_named(tools, name) is None ==> (0 <= i < tools.len() ==> tools[i].key != name),
        0 <= i < tools.len() && tools[i].key == name && registry::distinct_names(tools)
            ==> registry::tool_named(tools, name) == Some(tools[i]),
{
    lemma_place(tools, name);
    let p = registry::tool_place(tools, name) as int;
    if p < tools.len() {
        assert(tools[p].key == name);
        if 0 <= i < tools.len() && tools[i].key == name && registry::distinct_names(tools) {
            if i < p {
                assert(tools[i].key != tools[p].key);
            } else if p < i {
                assert(tools[p].key != tools[i].key);
            }
        }
    }
}

proof fn lemma_place(tools: Seq<ToolView>, name: Seq<char>)
    ensures
        registry::tool_place(tools, name) <= tools.len(),
        registry::tool_place(tools, name) < tools.len() ==> tools[registry::tool_place(
            tools,
            name,
        ) as int].key == name,
        forall|j: int|
            0 <= j < registry::tool_place(tools, name) ==> (#[trigger] tools[j]).key != name,
    decreases tools.len(),
{
    if tools.len() > 0 && tools[0].key != name {
        let t = tools.skip(1);
        lemma_place(t, name);
        assert forall|j: int| 0 <= j < registry::tool_place(tools, name) implies (
        #[trigger] tools[j]).key != name by {
            if j > 0 {
                assert(t[j - 1] == tools[j]);
            }
        }
    }
}

/// A tool is offered exactly while its group is active.
pub proof fn law_tools_of_active_groups_are_offered(
    tools: Seq<ToolView>,
    active: Seq<Seq<char>>,
    t: ToolView,
)
    ensures
        registry::active_tools(tools, active).contains(t) <==> tools.contains(t) && active.contains(
            t.group,
        ),
        registry::active_tools(tools, active).len() <= tools.len(),
    decreases tools.len(),
{
    if tools.len() > 0 {
        let front = tools.drop_last();
        let before = registry::active_tools(front, active);
        let all = registry::active_tools(tools, active);
        law_tools_of_active_groups_are_offered(front, active, t);
        if all.contains(t) {
            let k = choose|k: int| 0 <= k < all.len() && all[k] == t;
            if k < before.len() {
                assert(before[k] == t);
                let j = choose|j: int| 0 <= j < front.len() && front[j] == t;
                assert(tools[j] == t);
            } else {
                assert(tools[tools.len() - 1] == t);
            }
        }
        if tools.contains(t) && active.contains(t.group) {
            let k = choose|k: int| 0 <= k < tools.len() && tools[k] == t;
            if k < front.len() {
                assert(front[k] == t);
                let j = choose|j: int| 0 <= j < before.len() && before[j] == t;
                assert(all[j] == t);
            } else {
                assert(all[all.len() - 1] == t);
            }
        }
    }
}

/// What a tool returns is what a call of it gives: its text, or its JSON where that is asked for, its
/// values as they are, and its image where one is wanted.
pub proof fn law_returned_values_are_given(
    description: String,
    t: ToolReturn,
    wants_image: bool,
    r: ToolOutput,
    s: ToolOutput,
    image: Option<PreparedImage>,
)
    requires
        registry::call_output(
            (ToolCall { description, returned: Ok(t) }),
            ToolOutputFormat::Text,
            wants_image,
            r,
            image,
        ),
        registry::call_output(
            (ToolCall { description, returned: Ok(t) }),
            ToolOutputFormat::Json,
            wants_image,
            s,
            image,
        ),
    ensures
        r.content@ == t.text@,
        t.json_text is Some ==> s.content@ == t.json_text->0@,
        !r.is_error,
        !s.is_error,
        r.invocation_description@ == description@,
        r.result_json == t.json,
        r.image_ref == t.image_ref,
        wants_image ==> image == t.image,
        !wants_image ==> image is None,
{
}

/// What a tool fails with is what a call of it says, as an error, and nothing else is given.
pub proof fn law_failures_are_errors(
    description: String,
    e: String,
    format: ToolOutputFormat,
    wants_image: bool,
    r: ToolOutput,
    image: Option<PreparedImage>,
)
    requires
        registry::call_output(
            (ToolCall { description, returned: Err(e) }),
            format,
            wants_image,
            r,
            image,
        ),
    ensures
        r.is_error,
        r.content@ == e@,
        r.result_json is None,
        r.image_ref is None,
        image is None,
        r.invocation_description@ == description@,
{
}

/// A call under a name that no tool is registered under is refused by that name; one under a name
/// that is registered is made.
pub proof fn law_calls_go_by_name(
    tools: Seq<ToolView>,
    name: Seq<char>,
    i: int,
    format: ToolOutputFormat,
    call: ToolCall,
    wants_image: bool,
    r: Result<(ToolOutput, Option<PreparedImage>), ToolError>,
)
    requires
        registry::executed(tools, name, format, Ok(call), wants_image, r),
    ensures
        (forall|j: int| 0 <= j < tools.len() ==> (#[trigger] tools[j]).key != name) ==> (r matches Err(
            ToolError::Other(m),
        ) && m@ == "unknown tool: "@ + name),
        0 <= i < tools.len() && tools[i].key == name ==> r is Ok,
{
    law_tool_is_found_by_its_name(tools, name, i);
    lemma_place(tools, name);
}

/// A group that goes takes its entry with it and leaves the others.
pub proof fn law_other_groups_stay(v: Seq<(Seq<char>, Seq<char>)>, name: Seq<char>, g: (Seq<char>, Seq<char>))
    ensures
        registry::other_groups(v, name).contains(g) <==> v.contains(g) && g.0 != name,
    decreases v.len(),
{
    if v.len() > 0 {
        let front = v.drop_last();
        let before = registry::other_groups(front, name);
        let all = registry::other_groups(v, name);
        law_other_groups_stay(front, name, g);
        if all.contains(g) {
            let k = choose|k: int| 0 <= k < all.len() && all[k] == g;
            if k < before.len() {
                assert(before[k] == g);
                let j = choose|j: int| 0 <= j < front.len() && front[j] == g;
                assert(v[j] == g);
            } else {
                assert(v[v.len() - 1] == g);
            }
        }
        if v.contains(g) && g.0 != name {
            let k = choose|k: int| 0 <= k < v.len() && v[k] == g;
            if k < front.len() {
                assert(front[k] == g);
                let j = choose|j: int| 0 <= j < before.len() && before[j] == g;
                assert(all[j] == g);
            } else {
                assert(all[all.len() - 1] == g);
            }
        }
    }
}

/// Every name that is said to be unknown is one of the list that is not known.
pub proof fn law_unknown_names_are_named(groups: Seq<Seq<char>>, known: Seq<Seq<char>>, g: Seq<char>)
    ensures
        registry::unknown_names(groups, known).contains(g) <==> groups.contains(g)
            && !known.contains(g),
    decreases groups.len(),
{
    if groups.len() > 0 {
        let front = groups.drop_last();
        let before = registry::unknown_names(front, known);
        let all = registry::unknown_names(groups, known);
        law_unknown_names_are_named(front, known, g);
        if all.contains(g) {
            let k = choose|k: int| 0 <= k < all.len() && all[k] == g;
            if k < before.len() {
                assert(before[k] == g);
                let j = choose|j: int| 0 <= j < front.len() && front[j] == g;
                assert(groups[j] == g);
            } else {
                assert(groups[groups.len() - 1] == g);
            }
        }
        if groups.contains(g) && !known.contains(g) {
            let k = choose|k: int| 0 <= k < groups.len() && groups[k] == g;
            if k < front.len() {
                assert(front[k] == g);
                let j = choose|j: int| 0 <= j < before.len() && before[j] == g;
                assert(all[j] == g);
            } else {
                assert(all[all.len() - 1] == g);
            }
        }
    }
}

/// The model may call every tool of this library; programs may call all but those that change the
/// session or reach the user's device.
pub proof fn law_devices_and_sessions_are_for_the_model(i: int)
    ensures
        0 <= i < registry::builtin_tools().len() ==> registry::builtin_tools()[i].callers[0]
            is Direct && (registry::builtin_tools()[i].callers.contains(AllowedCaller::Programmatic)
            <==> i != 9) && registry::builtin_tools()[9].name == "set_working_dir"@,
        0 <= i < registry::host_tools().len() ==> registry::host_tools()[i].callers[0] is Direct && (
        registry::host_tools()[i].callers.contains(AllowedCaller::Programmatic) <==> registry::host_tools()[i].group
            != "ios"@),
{
    let all = registry::caller_list(true);
    let direct = registry::caller_list(false);
    assert(all[1] == AllowedCaller::Programmatic);
    assert(all.contains(AllowedCaller::Programmatic));
    assert(!direct.contains(AllowedCaller::Programmatic)) by {
        assert forall|k: int| 0 <= k < direct.len() implies direct[k]
            != AllowedCaller::Programmatic by {}
    }
    reveal_strlit("ios");
    reveal_strlit("shell");
    reveal_strlit("image");
    assert("ios"@.len() == 3 && "shell"@.len() == 5 && "image"@.len() == 5);
}

/// A definition offers a tool by its own name and description, and says who may call it where that is
/// asked for; there is one for each tool, in order.
pub proof fn law_definitions_are_of_their_tools(
    d: Seq<ToolDefinition>,
    tools: Seq<ToolView>,
    with_callers: bool,
    i: int,
)
    requires
        registry::offers_all(d, tools, with_callers),
    ensures
        d.len() == tools.len(),
        0 <= i < d.len() ==> d[i].name@ == tools[i].name && d[i].description@ == tools[i].description,
        0 <= i < d.len() && with_callers && tools[i].callers.len() > 0 ==> d[i].allowed_callers is Some
            && d[i].allowed_callers->0@ == tools[i].callers,
        0 <= i < d.len() && !with_callers ==> d[i].allowed_callers is None,
{
    if 0 <= i < d.len() {
        assert(registry::offers(d[i], tools[i], with_callers));
    }
}

/// What is found under a name is a tool that was registered under it.
pub proof fn law_found_tool_is_the_registered_one(tools: Seq<ToolView>, name: Seq<char>, t: ToolInfo)
    requires
        registry::finds(tools, name, t),
    ensures
        exists|i: int|
            0 <= i < tools.len() && (#[trigger] tools[i]).key == name && tools[i].name == t.name@
                && tools[i].description == t.description@ && tools[i].group == t.group@,
{
    lemma_place(tools, name);
    let p = registry::tool_place(tools, name) as int;
    assert(tools[p].key == name);
}

/// Tools that are registered one after another are all there: the last under each name is the one
/// that is found.
pub proof fn law_registered_tools_are_there(tools: Seq<ToolView>, more: Seq<ToolView>, i: int)
    requires
        registry::distinct_names(tools),
        0 <= i < more.len(),
        forall|j: int| i < j < more.len() ==> (#[trigger] more[j]).key != more[i].key,
    ensures
        registry::tool_named(registry::with_tools(tools, more), more[i].key) == Some(more[i]),
        registry::distinct_names(registry::with_tools(tools, more)),
    decreases more.len(),
{
    let front = more.drop_last();
    let before = registry::with_tools(tools, front);
    lemma_stays_distinct(tools, front);
    registry::law_registered_tool_is_found(before, more.last(), more[i].key);
    if i < front.len() {
        assert forall|j: int| i < j < front.len() implies (#[trigger] front[j]).key
            != front[i].key by {
            assert(front[j] == more[j]);
        }
        law_registered_tools_are_there(tools, front, i);
        assert(more[more.len() - 1].key != more[i].key);
    }
}

proof fn lemma_stays_distinct(tools: Seq<ToolView>, more: Seq<ToolView>)
    requires
        registry::distinct_names(tools),
    ensures
        registry::distinct_names(registry::with_tools(tools, more)),
    decreases more.len(),
{
    if more.len() > 0 {
        lemma_stays_distinct(tools, more.drop_last());
        registry::law_registered_tool_is_found(
            registry::with_tools(tools, more.drop_last()),
            more.last(),
            more.last().key,
        );
    }
}

/// The names of the tools that go with a group are those they are registered under.
pub proof fn law_removed_names_are_registered_ones(tools: Seq<ToolView>, group: Seq<char>, i: int)
    requires
        0 <= i < registry::tool_names(registry::of_group(tools, group, true)).len(),
    ensures
        exists|j: int|
            0 <= j < tools.len() && (#[trigger] tools[j]).group == group && tools[j].key
                == registry::tool_names(registry::of_group(tools, group, true))[i],
{
    let gone = registry::of_group(tools, group, true);
    let t = gone[i];
    assert(gone.contains(t));
    registry::law_unregistered_group_is_gone(tools, group, t);
    let j = choose|j: int| 0 <= j < tools.len() && tools[j] == t;
    assert(tools[j].group == group && tools[j].key == registry::tool_names(gone)[i]);
}

} // verus!
