//! Hook payloads as JSON values, and the fields Sprocket reads from them.
use vstd::prelude::*;

use crate::domain::session_tracker::opt_text;
use crate::text::str_eq;

verus! {

/// A JSON value. An object keeps its members in order (as a JSON parser hands them over).
#[derive(Debug)]
pub enum JsonValue {
    Null,
    Bool(bool),
    /// A number, as its JSON text.
    Number(String),
    Str(String),
    Array(Vec<JsonValue>),
    Object(Vec<(String, JsonValue)>),
}

/// The value of the first member of `entries` named `key`.
pub open spec fn member(entries: Seq<(String, JsonValue)>, key: Seq<char>) -> Option<JsonValue>
    decreases entries.len(),
{
    if entries.len() == 0 {
        None
    } else if entries[0].0@ == key {
        Some(entries[0].1)
    } else {
        member(entries.drop_first(), key)
    }
}

/// The member `key` of an object; nothing for other values.
pub open spec fn spec_get(v: JsonValue, key: Seq<char>) -> Option<JsonValue> {
    match v {
        JsonValue::Object(entries) => member(entries@, key),
        _ => None,
    }
}

/// The text of a string value.
pub open spec fn spec_as_str(v: Option<JsonValue>) -> Option<Seq<char>> {
    match v {
        Some(JsonValue::Str(s)) => Some(s@),
        _ => None,
    }
}

/// The first key, in the order of `keys`, whose member in `entries` is a string, and that
/// string.
pub open spec fn direct_string(entries: Seq<(String, JsonValue)>, keys: Seq<Seq<char>>) -> Option<
    Seq<char>,
>
    decreases keys.len(),
{
    if keys.len() == 0 {
        None
    } else {
        match spec_as_str(member(entries, keys[0])) {
            Some(s) => Some(s),
            None => direct_string(entries, keys.drop_first()),
        }
    }
}

/// The first string found under one of `keys`: in an object, its own members first (in the
/// order of `keys`), then each member value in turn; in an array, each item in turn.
pub open spec fn first_string(v: JsonValue, keys: Seq<Seq<char>>) -> Option<Seq<char>>
    decreases v, 0int,
{
    match v {
        JsonValue::Object(entries) => match direct_string(entries@, keys) {
            Some(s) => Some(s),
            None => first_in_members(entries@, keys),
        },
        JsonValue::Array(items) => first_in_items(items@, keys),
        _ => None,
    }
}

/// The first string found in the member values, in order.
pub open spec fn first_in_members(entries: Seq<(String, JsonValue)>, keys: Seq<Seq<char>>) -> Option<
    Seq<char>,
>
    decreases entries, entries.len(),
{
    if entries.len() == 0 {
        None
    } else {
        match first_string(entries[0].1, keys) {
            Some(s) => Some(s),
            None => first_in_members(entries.subrange(1, entries.len() as int), keys),
        }
    }
}

/// The first string found in the items, in order.
pub open spec fn first_in_items(items: Seq<JsonValue>, keys: Seq<Seq<char>>) -> Option<Seq<char>>
    decreases items, items.len(),
{
    if items.len() == 0 {
        None
    } else {
        match first_string(items[0], keys) {
            Some(s) => Some(s),
            None => first_in_items(items.subrange(1, items.len() as int), keys),
        }
    }
}

/// The texts of a list of keys.
pub open spec fn key_views(keys: Seq<&str>) -> Seq<Seq<char>> {
    keys.map_values(|k: &str| k@)
}

/// The optional text of an optional string slice.
pub open spec fn opt_text_of(o: Option<&str>) -> Option<Seq<char>> {
    match o {
        Some(s) => Some(s@),
        None => None,
    }
}

/// The value of the first member named `key`.
pub fn get_member<'a>(entries: &'a Vec<(String, JsonValue)>, key: &str) -> (r: Option<&'a JsonValue>)
    ensures
        match r {
            Some(v) => member(entries@, key@) == Some(*v),
            None => member(entries@, key@) is None,
        },
{
    let mut i: usize = 0;
    assert(entries@.skip(0) =~= entries@);
    while i < entries.len()
        invariant
            i <= entries@.len(),
            member(entries@, key@) == member(entries@.skip(i as int), key@),
        decreases entries.len() - i,
    {
        assert(entries@.skip(i as int).drop_first() =~= entries@.skip(i + 1));
        assert(entries@.skip(i as int)[0] == entries@[i as int]);
        if str_eq(entries[i].0.as_str(), key) {
            return Some(&entries[i].1);
        }
        i = i + 1;
    }
    None
}

/// The member `key` of an object value.
pub fn get<'a>(value: &'a JsonValue, key: &str) -> (r: Option<&'a JsonValue>)
    ensures
        match r {
            Some(v) => spec_get(*value, key@) == Some(*v),
            None => spec_get(*value, key@) is None,
        },
{
    match value {
        JsonValue::Object(entries) => get_member(entries, key),
        _ => None,
    }
}

/// The text of a string value.
pub fn as_str<'a>(value: Option<&'a JsonValue>) -> (r: Option<&'a str>)
    ensures
        opt_text_of(r) == spec_as_str(match value {
            Some(v) => Some(*v),
            None => None,
        }),
{
    match value {
        Some(JsonValue::Str(s)) => Some(s.as_str()),
        _ => None,
    }
}

fn direct_string_exec<'a>(entries: &'a Vec<(String, JsonValue)>, keys: &[&str]) -> (r: Option<&'a str>)
    ensures
        opt_text_of(r) == direct_string(entries@, key_views(keys@)),
{
    let ghost kv = key_views(keys@);
    let mut j: usize = 0;
    assert(kv.skip(0) =~= kv);
    while j < keys.len()
        invariant
            j <= keys@.len(),
            kv == key_views(keys@),
            direct_string(entries@, kv) == direct_string(entries@, kv.skip(j as int)),
        decreases keys.len() - j,
    {
        assert(kv.skip(j as int).drop_first() =~= kv.skip(j + 1));
        assert(kv.skip(j as int)[0] == keys@[j as int]@);
        let found = as_str(get_member(entries, keys[j]));
        if found.is_some() {
            return found;
        }
        j = j + 1;
    }
    None
}

/// The first string found under one of `keys`, searching the payload depth-first: an
/// object's own members (in the order of `keys`) before its nested values.
pub fn find_first_string<'a>(value: &'a JsonValue, keys: &[&str]) -> (r: Option<&'a str>)
    ensures
        opt_text_of(r) == first_string(*value, key_views(keys@)),
    decreases value,
{
    match value {
        JsonValue::Object(entries) => {
            let direct = direct_string_exec(entries, keys);
            if direct.is_some() {
                return direct;
            }
            let ghost es = entries@;
            let mut i: usize = 0;
            assert(es.subrange(0, es.len() as int) =~= es);
            while i < entries.len()
                invariant
                    i <= es.len(),
                    es == entries@,
                    *value == JsonValue::Object(*entries),
                    first_string(*value, key_views(keys@)) == first_in_members(es, key_views(keys@)),
                    first_in_members(es, key_views(keys@)) == first_in_members(
                        es.subrange(i as int, es.len() as int),
                        key_views(keys@),
                    ),
                decreases entries.len() - i,
            {
                let ghost rest = es.subrange(i as int, es.len() as int);
                assert(rest.subrange(1, rest.len() as int) =~= es.subrange(i + 1, es.len() as int));
                assert(rest[0] == es[i as int]);
                assert(decreases_to!(*value => *entries));
                assert(decreases_to!(*entries => entries@));
                assert(decreases_to!(entries@ => entries@[i as int]));
                assert(decreases_to!(entries@[i as int] => entries@[i as int].1));
                assert(decreases_to!(*value => entries@[i as int].1));
                let found = find_first_string(&entries[i].1, keys);
                if found.is_some() {
                    return found;
                }
                i = i + 1;
            }
            None
        },
        JsonValue::Array(items) => {
            let ghost its = items@;
            let mut i: usize = 0;
            assert(its.subrange(0, its.len() as int) =~= its);
            while i < items.len()
                invariant
                    i <= its.len(),
                    its == items@,
                    *value == JsonValue::Array(*items),
                    first_string(*value, key_views(keys@)) == first_in_items(its, key_views(keys@)),
                    first_in_items(its, key_views(keys@)) == first_in_items(
                        its.subrange(i as int, its.len() as int),
                        key_views(keys@),
                    ),
                decreases items.len() - i,
            {
                let ghost rest = its.subrange(i as int, its.len() as int);
                assert(rest.subrange(1, rest.len() as int) =~= its.subrange(i + 1, its.len() as int));
                assert(rest[0] == its[i as int]);
                assert(decreases_to!(*value => *items));
                assert(decreases_to!(*items => items@));
                assert(decreases_to!(items@ => items@[i as int]));
                assert(decreases_to!(*value => items@[i as int]));
                let found = find_first_string(&items[i], keys);
                if found.is_some() {
                    return found;
                }
                i = i + 1;
            }
            None
        },
        _ => None,
    }
}

/// The keys that name the working directory.
pub open spec fn cwd_keys() -> Seq<Seq<char>> {
    seq!["cwd"@, "working_dir"@, "workingDirectory"@]
}

/// The keys that name the session.
pub open spec fn session_keys() -> Seq<Seq<char>> {
    seq!["session_id"@, "sessionId"@]
}

/// The keys that name the turn.
pub open spec fn turn_keys() -> Seq<Seq<char>> {
    seq!["turn_id"@, "turnId"@, "conversationTurnId"@, "request_id"@, "requestId"@]
}

/// The working directory a payload names.
pub fn cwd(payload: &JsonValue) -> (r: Option<String>)
    ensures
        opt_text(r) == first_string(*payload, cwd_keys()),
{
    let keys: [&str; 3] = ["cwd", "working_dir", "workingDirectory"];
    assert(key_views(keys@) =~= cwd_keys());
    match find_first_string(payload, &keys) {
        Some(s) => Some(s.to_string()),
        None => None,
    }
}

/// The session id a payload names, if it names one.
pub fn explicit_session_id(payload: &JsonValue) -> (r: Option<&str>)
    ensures
        opt_text_of(r) == first_string(*payload, session_keys()),
{
    let keys: [&str; 2] = ["session_id", "sessionId"];
    assert(key_views(keys@) =~= session_keys());
    find_first_string(payload, &keys)
}

/// The session id of a payload: the one it names, or `session-current`.
pub fn session_id(payload: &JsonValue) -> (r: String)
    ensures
        r@ == (match first_string(*payload, session_keys()) {
            Some(s) => s,
            None => "session-current"@,
        }),
{
    match explicit_session_id(payload) {
        Some(s) => s.to_string(),
        None => "session-current".to_string(),
    }
}

/// The turn id of a payload: the one it names, or `turn-current`.
pub fn turn_id(payload: &JsonValue) -> (r: String)
    ensures
        r@ == (match first_string(*payload, turn_keys()) {
            Some(s) => s,
            None => "turn-current"@,
        }),
{
    let keys: [&str; 5] = ["turn_id", "turnId", "conversationTurnId", "request_id", "requestId"];
    assert(key_views(keys@) =~= turn_keys());
    match find_first_string(payload, &keys) {
        Some(s) => s.to_string(),
        None => "turn-current".to_string(),
    }
}

/// The string at `payload[parent][child]`, if there is one.
pub open spec fn nested_string(payload: JsonValue, parent: Seq<char>, child: Seq<char>) -> Option<
    Seq<char>,
> {
    match spec_get(payload, parent) {
        Some(p) => spec_as_str(spec_get(p, child)),
        None => None,
    }
}

/// The command of a tool call: `tool_input`, `toolInput` or `input` holding `command` (all
/// three tried first), then holding `cmd`, and otherwise the first `command` or `cmd` string
/// anywhere in the payload.
pub open spec fn spec_command_text(payload: JsonValue) -> Option<Seq<char>> {
    let pairs = seq![
        ("tool_input"@, "command"@),
        ("toolInput"@, "command"@),
        ("input"@, "command"@),
        ("tool_input"@, "cmd"@),
        ("toolInput"@, "cmd"@),
        ("input"@, "cmd"@),
    ];
    first_nested(payload, pairs, 0)
}

/// The first of the `(parent, child)` pairs from `i` on that holds a string, or the first
/// `command` or `cmd` string anywhere.
pub open spec fn first_nested(payload: JsonValue, pairs: Seq<(Seq<char>, Seq<char>)>, i: int) -> Option<
    Seq<char>,
>
    decreases pairs.len() - i,
{
    if i < 0 || i >= pairs.len() {
        first_string(payload, seq!["command"@, "cmd"@])
    } else {
        match nested_string(payload, pairs[i].0, pairs[i].1) {
            Some(s) => Some(s),
            None => first_nested(payload, pairs, i + 1),
        }
    }
}

fn nested_string_exec<'a>(payload: &'a JsonValue, parent: &str, child: &str) -> (r: Option<&'a str>)
    ensures
        opt_text_of(r) == nested_string(*payload, parent@, child@),
{
    match get(payload, parent) {
        Some(p) => as_str(get(p, child)),
        None => None,
    }
}

/// The shell command of a tool-call payload.
pub fn command_text(payload: &JsonValue) -> (r: Option<String>)
    ensures
        opt_text(r) == spec_command_text(*payload),
{
    let parents: [&str; 6] = ["tool_input", "toolInput", "input", "tool_input", "toolInput", "input"];
    let children: [&str; 6] = ["command", "command", "command", "cmd", "cmd", "cmd"];
    let ghost pairs = seq![
        ("tool_input"@, "command"@),
        ("toolInput"@, "command"@),
        ("input"@, "command"@),
        ("tool_input"@, "cmd"@),
        ("toolInput"@, "cmd"@),
        ("input"@, "cmd"@),
    ];
    let mut i: usize = 0;
    while i < 6
        invariant
            i <= 6,
            parents@ == seq!["tool_input", "toolInput", "input", "tool_input", "toolInput", "input"],
            children@ == seq!["command", "command", "command", "cmd", "cmd", "cmd"],
            pairs.len() == 6,
            forall|k: int| 0 <= k < 6 ==> (#[trigger] pairs[k]).0 == parents@[k]@ && pairs[k].1 == children@[k]@,
            spec_command_text(*payload) == first_nested(*payload, pairs, i as int),
        decreases 6 - i,
    {
        match nested_string_exec(payload, parents[i], children[i]) {
            Some(s) => return Some(s.to_string()),
            None => {},
        }
        i = i + 1;
    }
    let keys: [&str; 2] = ["command", "cmd"];
    assert(key_views(keys@) =~= seq!["command"@, "cmd"@]);
    match find_first_string(payload, &keys) {
        Some(s) => Some(s.to_string()),
        None => None,
    }
}

/// A JSON value as a mathematical value.
pub enum JsonView {
    Null,
    Bool(bool),
    Number(Seq<char>),
    Str(Seq<char>),
    Array(Seq<JsonView>),
    Object(Seq<(Seq<char>, JsonView)>),
}

/// The mathematical value of a JSON value.
pub open spec fn json_view(v: JsonValue) -> JsonView
    decreases v, 0int,
{
    match v {
        JsonValue::Null => JsonView::Null,
        JsonValue::Bool(b) => JsonView::Bool(b),
        JsonValue::Number(n) => JsonView::Number(n@),
        JsonValue::Str(s) => JsonView::Str(s@),
        JsonValue::Array(items) => JsonView::Array(item_views(items@)),
        JsonValue::Object(entries) => JsonView::Object(member_views(entries@)),
    }
}

/// The views of array items.
pub open spec fn item_views(items: Seq<JsonValue>) -> Seq<JsonView>
    decreases items, items.len(),
{
    if items.len() == 0 {
        Seq::empty()
    } else {
        seq![json_view(items[0])] + item_views(items.subrange(1, items.len() as int))
    }
}

/// The views of object members.
pub open spec fn member_views(entries: Seq<(String, JsonValue)>) -> Seq<(Seq<char>, JsonView)>
    decreases entries, entries.len(),
{
    if entries.len() == 0 {
        Seq::empty()
    } else {
        seq![(entries[0].0@, json_view(entries[0].1))] + member_views(
            entries.subrange(1, entries.len() as int),
        )
    }
}

/// Array items viewed one by one.
pub proof fn lemma_item_views(items: Seq<JsonValue>)
    ensures
        item_views(items) == items.map_values(|x: JsonValue| json_view(x)),
    decreases items.len(),
{
    if items.len() > 0 {
        lemma_item_views(items.subrange(1, items.len() as int));
    }
    assert(item_views(items) =~= items.map_values(|x: JsonValue| json_view(x)));
}

/// Object members viewed one by one.
pub proof fn lemma_member_views(entries: Seq<(String, JsonValue)>)
    ensures
        member_views(entries) == entries.map_values(
            |e: (String, JsonValue)| (e.0@, json_view(e.1)),
        ),
    decreases entries.len(),
{
    if entries.len() > 0 {
        lemma_member_views(entries.subrange(1, entries.len() as int));
    }
    assert(member_views(entries) =~= entries.map_values(
        |e: (String, JsonValue)| (e.0@, json_view(e.1)),
    ));
}

/// The value of the first member named `key` among viewed members.
pub open spec fn view_lookup(es: Seq<(Seq<char>, JsonView)>, key: Seq<char>) -> Option<JsonView>
    decreases es.len(),
{
    if es.len() == 0 {
        None
    } else if es[0].0 == key {
        Some(es[0].1)
    } else {
        view_lookup(es.drop_first(), key)
    }
}

/// The member `key` of an object view.
pub open spec fn view_member(v: JsonView, key: Seq<char>) -> Option<JsonView> {
    match v {
        JsonView::Object(es) => view_lookup(es, key),
        _ => None,
    }
}

/// Looking a member up commutes with viewing.
pub proof fn lemma_member_lookup(entries: Seq<(String, JsonValue)>, key: Seq<char>)
    ensures
        view_lookup(member_views(entries), key) == (match member(entries, key) {
            Some(v) => Some(json_view(v)),
            None => None,
        }),
    decreases entries.len(),
{
    if entries.len() > 0 {
        assert(entries.drop_first() =~= entries.subrange(1, entries.len() as int));
        lemma_member_lookup(entries.drop_first(), key);
        assert(member_views(entries).drop_first() =~= member_views(entries.drop_first()));
    }
}

/// A hook whose command contains the marker.
pub open spec fn hook_has_marker(h: JsonView, marker: Seq<char>) -> bool {
    match view_member(h, "command"@) {
        Some(JsonView::Str(c)) => crate::text::contains_sub(c, marker),
        _ => false,
    }
}

/// Some hook runs a command that contains the marker.
pub open spec fn hooks_have_marker(hooks: Seq<JsonView>, marker: Seq<char>) -> bool {
    exists|i: int| 0 <= i < hooks.len() && hook_has_marker(#[trigger] hooks[i], marker)
}

/// A hook group holding a hook whose command contains the marker.
pub open spec fn view_group_has_marker(g: JsonView, marker: Seq<char>) -> bool {
    match view_member(g, "hooks"@) {
        Some(JsonView::Array(hooks)) => hooks_have_marker(hooks, marker),
        _ => false,
    }
}

/// Whether a hook group was written by Sprocket: one of its hooks runs a command that
/// contains the marker.
pub fn group_contains_marker(group: &JsonValue, marker: &str) -> (r: bool)
    ensures
        r == view_group_has_marker(json_view(*group), marker@),
{
    let hooks = match group {
        JsonValue::Object(entries) => {
            proof {
                lemma_member_lookup(entries@, "hooks"@);
            }
            get_member(entries, "hooks")
        },
        _ => None,
    };
    let items = match hooks {
        Some(JsonValue::Array(items)) => items,
        _ => return false,
    };
    proof {
        lemma_item_views(items@);
    }
    let mut i: usize = 0;
    while i < items.len()
        invariant
            i <= items@.len(),
            item_views(items@) == items@.map_values(|x: JsonValue| json_view(x)),
            view_member(json_view(*group), "hooks"@) == Some(JsonView::Array(item_views(items@))),
            forall|k: int| 0 <= k < i ==> !hook_has_marker(#[trigger] item_views(items@)[k], marker@),
        decreases items.len() - i,
    {
        let found = match &items[i] {
            JsonValue::Object(hook_entries) => {
                proof {
                    lemma_member_lookup(hook_entries@, "command"@);
                }
                match as_str(get_member(hook_entries, "command")) {
                    Some(command) => crate::text::str_contains(command, marker),
                    None => false,
                }
            },
            _ => false,
        };
        assert(item_views(items@)[i as int] == json_view(items@[i as int]));
        assert(found == hook_has_marker(item_views(items@)[i as int], marker@));
        if found {
            let ghost hooks = item_views(items@);
            assert(0 <= i < hooks.len() && hook_has_marker(hooks[i as int], marker@));
            assert(hooks_have_marker(hooks, marker@));
            return true;
        }
        i = i + 1;
    }
    false
}

/// Why `.codex/hooks.json` cannot be merged.
#[derive(Debug, Clone, Copy, PartialEq, Eq, Structural)]
pub enum HooksJsonError {
    /// The file does not hold an object.
    RootNotObject,
    /// Its `hooks` member is not an object.
    HooksNotObject,
    /// The member of an event under `hooks` is not an array.
    EventNotArray,
}

impl HooksJsonError {
    /// The error's message.
    pub fn message(&self) -> (m: String)
        ensures
            m@ == (match self {
                HooksJsonError::RootNotObject => "hooks.json root must be an object"@,
                HooksJsonError::HooksNotObject => "hooks.json `hooks` must be an object"@,
                HooksJsonError::EventNotArray => "hooks.json event must be an array"@,
            }),
    {
        match self {
            HooksJsonError::RootNotObject => String::from_str("hooks.json root must be an object"),
            HooksJsonError::HooksNotObject => String::from_str("hooks.json `hooks` must be an object"),
            HooksJsonError::EventNotArray => String::from_str("hooks.json event must be an array"),
        }
    }
}

/// The position of the first member named `key`.
pub open spec fn view_index(es: Seq<(Seq<char>, JsonView)>, key: Seq<char>) -> Option<int>
    decreases es.len(),
{
    if es.len() == 0 {
        None
    } else if es[0].0 == key {
        Some(0)
    } else {
        match view_index(es.drop_first(), key) {
            Some(i) => Some(i + 1),
            None => None,
        }
    }
}

pub proof fn lemma_view_index(es: Seq<(Seq<char>, JsonView)>, key: Seq<char>)
    ensures
        view_index(es, key) matches Some(i) ==> 0 <= i < es.len() && es[i].0 == key && forall|
            k: int,
        | 0 <= k < i ==> (#[trigger] es[k]).0 != key,
        view_index(es, key) is None ==> forall|k: int| 0 <= k < es.len() ==> (#[trigger] es[k]).0
            != key,
    decreases es.len(),
{
    if es.len() > 0 {
        lemma_view_index(es.drop_first(), key);
        assert forall|k: int| 1 <= k < es.len() implies es[k] == es.drop_first()[k - 1] by {}
    }
}

/// The test that keeps hook groups not written by Sprocket.
pub open spec fn unmarked(marker: Seq<char>) -> spec_fn(JsonView) -> bool {
    |g: JsonView| !view_group_has_marker(g, marker)
}

/// The hooks after merging one generated group for an event: the event's groups without
/// Sprocket's, then the generated one; a new event gets just the generated group.
pub open spec fn merge_event(
    hooks: Seq<(Seq<char>, JsonView)>,
    event: Seq<char>,
    group: JsonView,
    marker: Seq<char>,
) -> Option<Seq<(Seq<char>, JsonView)>> {
    match view_index(hooks, event) {
        None => Some(hooks.push((event, JsonView::Array(seq![group])))),
        Some(i) => match hooks[i].1 {
            JsonView::Array(items) => Some(
                hooks.update(i, (event, JsonView::Array(items.filter(unmarked(marker)).push(group)))),
            ),
            _ => None,
        },
    }
}

/// The hooks after merging the generated groups in order, or `None` when some event's
/// member is not an array.
pub open spec fn merge_events(
    hooks: Seq<(Seq<char>, JsonView)>,
    groups: Seq<(Seq<char>, JsonView)>,
    marker: Seq<char>,
) -> Option<Seq<(Seq<char>, JsonView)>>
    decreases groups.len(),
{
    if groups.len() == 0 {
        Some(hooks)
    } else {
        match merge_event(hooks, groups[0].0, groups[0].1, marker) {
            None => None,
            Some(h) => merge_events(h, groups.drop_first(), marker),
        }
    }
}

/// The hooks file after merging generated groups into it (an absent file counts as `{}`).
pub open spec fn spec_merge_hooks(
    existing: Option<JsonView>,
    groups: Seq<(Seq<char>, JsonView)>,
    marker: Seq<char>,
) -> Result<JsonView, HooksJsonError> {
    let root = match existing {
        Some(v) => v,
        None => JsonView::Object(Seq::empty()),
    };
    match root {
        JsonView::Object(root_es) => {
            let at = view_index(root_es, "hooks"@);
            let hooks = match at {
                None => Some(Seq::<(Seq<char>, JsonView)>::empty()),
                Some(i) => match root_es[i].1 {
                    JsonView::Object(h) => Some(h),
                    _ => None,
                },
            };
            match hooks {
                None => Err(HooksJsonError::HooksNotObject),
                Some(h) => match merge_events(h, groups, marker) {
                    None => Err(HooksJsonError::EventNotArray),
                    Some(m) => Ok(
                        JsonView::Object(
                            match at {
                                None => root_es.push(("hooks"@, JsonView::Object(m))),
                                Some(i) => root_es.update(i, ("hooks"@, JsonView::Object(m))),
                            },
                        ),
                    ),
                },
            }
        },
        _ => Err(HooksJsonError::RootNotObject),
    }
}

/// Generated groups as the installer writes them: one per event, each carrying the marker.
pub open spec fn generated_groups_ok(groups: Seq<(Seq<char>, JsonView)>, marker: Seq<char>) -> bool {
    &&& forall|i: int, j: int| 0 <= i < j < groups.len() ==> (#[trigger] groups[i]).0 != (#[trigger] groups[j]).0
    &&& forall|i: int| 0 <= i < groups.len() ==> view_group_has_marker((#[trigger] groups[i]).1, marker)
}

/// An event that already holds its generated group last, after groups of others only.
pub open spec fn settled(h: Seq<(Seq<char>, JsonView)>, event: Seq<char>, group: JsonView, marker: Seq<char>) -> bool {
    match view_index(h, event) {
        Some(i) => match h[i].1 {
            JsonView::Array(items) => {
                &&& items.len() > 0
                &&& items.last() == group
                &&& forall|k: int| 0 <= k < items.len() - 1 ==> !view_group_has_marker(#[trigger] items[k], marker)
            },
            _ => false,
        },
        None => false,
    }
}

proof fn lemma_view_index_first(s: Seq<(Seq<char>, JsonView)>, key: Seq<char>, i: int)
    requires
        0 <= i < s.len(),
        s[i].0 == key,
        forall|k: int| 0 <= k < i ==> (#[trigger] s[k]).0 != key,
    ensures
        view_index(s, key) == Some(i),
    decreases i,
{
    if i > 0 {
        assert forall|k: int| 0 <= k < i - 1 implies (#[trigger] s.drop_first()[k]).0 != key by {
            assert(s.drop_first()[k] == s[k + 1]);
        }
        lemma_view_index_first(s.drop_first(), key, i - 1);
    }
}

proof fn lemma_view_index_absent(s: Seq<(Seq<char>, JsonView)>, key: Seq<char>)
    requires
        forall|k: int| 0 <= k < s.len() ==> (#[trigger] s[k]).0 != key,
    ensures
        view_index(s, key) is None,
    decreases s.len(),
{
    if s.len() > 0 {
        assert forall|k: int| 0 <= k < s.len() - 1 implies (#[trigger] s.drop_first()[k]).0 != key by {
            assert(s.drop_first()[k] == s[k + 1]);
        }
        lemma_view_index_absent(s.drop_first(), key);
    }
}

/// Looking a key up only depends on which members carry that key.
proof fn lemma_view_index_same_keys(a: Seq<(Seq<char>, JsonView)>, b: Seq<(Seq<char>, JsonView)>, key: Seq<char>)
    requires
        a.len() == b.len(),
        forall|k: int| 0 <= k < a.len() ==> ((#[trigger] a[k]).0 == key) == (b[k].0 == key),
    ensures
        view_index(a, key) == view_index(b, key),
{
    lemma_view_index(a, key);
    lemma_view_index(b, key);
    match view_index(a, key) {
        Some(i) => {
            assert forall|k: int| 0 <= k < i implies (#[trigger] b[k]).0 != key by {
                assert(a[k].0 != key);
            }
            lemma_view_index_first(b, key, i);
        },
        None => {
            assert forall|k: int| 0 <= k < b.len() implies (#[trigger] b[k]).0 != key by {
                assert(a[k].0 != key);
            }
            lemma_view_index_absent(b, key);
        },
    }
}

/// Every group of a filtered list is unmarked.
proof fn lemma_unmarked_filter(items: Seq<JsonView>, marker: Seq<char>)
    ensures
        forall|k: int| 0 <= k < items.filter(unmarked(marker)).len() ==> !view_group_has_marker(
            #[trigger] items.filter(unmarked(marker))[k],
            marker,
        ),
{
    assert forall|k: int| 0 <= k < items.filter(unmarked(marker)).len() implies !view_group_has_marker(
        #[trigger] items.filter(unmarked(marker))[k],
        marker,
    ) by {
        items.lemma_filter_pred(unmarked(marker), k);
        assert(unmarked(marker)(items.filter(unmarked(marker))[k]));
    }
}

/// Filtering a list of unmarked groups keeps it whole.
proof fn lemma_filter_keeps_unmarked(items: Seq<JsonView>, marker: Seq<char>)
    requires
        forall|k: int| 0 <= k < items.len() ==> !view_group_has_marker(#[trigger] items[k], marker),
    ensures
        items.filter(unmarked(marker)) == items,
    decreases items.len(),
{
    reveal(Seq::filter);
    if items.len() > 0 {
        assert forall|k: int| 0 <= k < items.drop_last().len() implies !view_group_has_marker(
            #[trigger] items.drop_last()[k],
            marker,
        ) by {
            assert(items.drop_last()[k] == items[k]);
        }
        lemma_filter_keeps_unmarked(items.drop_last(), marker);
        assert(unmarked(marker)(items.last()));
        assert(items.drop_last().push(items.last()) =~= items);
    }
}

/// A settled event is left as it is by merging its generated group again.
proof fn lemma_merge_settled_event(h: Seq<(Seq<char>, JsonView)>, event: Seq<char>, group: JsonView, marker: Seq<char>)
    requires
        settled(h, event, group, marker),
        view_group_has_marker(group, marker),
    ensures
        merge_event(h, event, group, marker) == Some(h),
{
    lemma_view_index(h, event);
    let i = view_index(h, event)->0;
    match h[i].1 {
        JsonView::Array(items) => {
            let front = items.drop_last();
            assert forall|k: int| 0 <= k < front.len() implies !view_group_has_marker(#[trigger] front[k], marker) by {
                assert(front[k] == items[k]);
            }
            lemma_filter_keeps_unmarked(front, marker);
            assert(items.filter(unmarked(marker)) == front.filter(unmarked(marker))) by {
                reveal(Seq::filter);
                assert(!unmarked(marker)(items.last()));
            }
            assert(front.push(group) =~= items);
            assert(h.update(i, (event, JsonView::Array(items))) =~= h);
        },
        _ => {},
    }
}

/// Merging one generated group settles its event.
proof fn lemma_merge_event_settles(
    h: Seq<(Seq<char>, JsonView)>,
    event: Seq<char>,
    group: JsonView,
    marker: Seq<char>,
)
    requires
        merge_event(h, event, group, marker) is Some,
    ensures
        settled(merge_event(h, event, group, marker)->0, event, group, marker),
{
    lemma_view_index(h, event);
    let h2 = merge_event(h, event, group, marker)->0;
    match view_index(h, event) {
        None => {
            assert(h2 == h.push((event, JsonView::Array(seq![group]))));
            assert forall|k: int| 0 <= k < h.len() implies (#[trigger] h2[k]).0 != event by {
                assert(h2[k] == h[k]);
            }
            lemma_view_index_first(h2, event, h.len() as int);
        },
        Some(i) => {
            match h[i].1 {
                JsonView::Array(items) => {
                    let kept = items.filter(unmarked(marker));
                    assert(h2 == h.update(i, (event, JsonView::Array(kept.push(group)))));
                    lemma_view_index_same_keys(h, h2, event);
                    lemma_unmarked_filter(items, marker);
                    assert forall|k: int| 0 <= k < kept.push(group).len() - 1 implies !view_group_has_marker(
                        #[trigger] kept.push(group)[k],
                        marker,
                    ) by {
                        assert(kept.push(group)[k] == kept[k]);
                    }
                },
                _ => {},
            }
        },
    }
}

/// Merging the group of another event keeps an event settled.
proof fn lemma_merge_event_keeps_settled(
    h: Seq<(Seq<char>, JsonView)>,
    other: Seq<char>,
    other_group: JsonView,
    event: Seq<char>,
    group: JsonView,
    marker: Seq<char>,
)
    requires
        settled(h, event, group, marker),
        other != event,
        merge_event(h, other, other_group, marker) is Some,
    ensures
        settled(merge_event(h, other, other_group, marker)->0, event, group, marker),
{
    lemma_view_index(h, other);
    lemma_view_index(h, event);
    let h2 = merge_event(h, other, other_group, marker)->0;
    let i = view_index(h, event)->0;
    match view_index(h, other) {
        None => {
            assert(h2 == h.push((other, JsonView::Array(seq![other_group]))));
            assert forall|k: int| 0 <= k < i implies (#[trigger] h2[k]).0 != event by {
                assert(h2[k] == h[k]);
            }
            assert(h2[i] == h[i]);
            lemma_view_index_first(h2, event, i);
        },
        Some(j) => {
            match h[j].1 {
                JsonView::Array(items) => {
                    assert(h2 == h.update(j, (other, JsonView::Array(items.filter(unmarked(marker)).push(other_group)))));
                    assert forall|k: int| 0 <= k < h.len() implies ((#[trigger] h[k]).0 == event) == (h2[k].0 == event) by {
                        if k == j {
                            assert(h2[k].0 == other);
                        } else {
                            assert(h2[k] == h[k]);
                        }
                    }
                    lemma_view_index_same_keys(h, h2, event);
                    assert(i != j);
                    assert(h2[i] == h[i]);
                },
                _ => {},
            }
        },
    }
}

/// Merging groups of other events keeps an event settled.
proof fn lemma_merge_events_keep_settled(
    h: Seq<(Seq<char>, JsonView)>,
    groups: Seq<(Seq<char>, JsonView)>,
    event: Seq<char>,
    group: JsonView,
    marker: Seq<char>,
)
    requires
        settled(h, event, group, marker),
        forall|k: int| 0 <= k < groups.len() ==> (#[trigger] groups[k]).0 != event,
        merge_events(h, groups, marker) is Some,
    ensures
        settled(merge_events(h, groups, marker)->0, event, group, marker),
    decreases groups.len(),
{
    if groups.len() > 0 {
        lemma_merge_event_keeps_settled(h, groups[0].0, groups[0].1, event, group, marker);
        let h2 = merge_event(h, groups[0].0, groups[0].1, marker)->0;
        assert forall|k: int| 0 <= k < groups.drop_first().len() implies (#[trigger] groups.drop_first()[k]).0 != event by {
            assert(groups.drop_first()[k] == groups[k + 1]);
        }
        lemma_merge_events_keep_settled(h2, groups.drop_first(), event, group, marker);
    }
}

/// After merging, every generated group's event is settled.
proof fn lemma_merge_events_settle(
    h: Seq<(Seq<char>, JsonView)>,
    groups: Seq<(Seq<char>, JsonView)>,
    marker: Seq<char>,
)
    requires
        generated_groups_ok(groups, marker),
        merge_events(h, groups, marker) is Some,
    ensures
        forall|k: int| 0 <= k < groups.len() ==> settled(merge_events(h, groups, marker)->0, (#[trigger] groups[k]).0, groups[k].1, marker),
    decreases groups.len(),
{
    if groups.len() > 0 {
        let h2 = merge_event(h, groups[0].0, groups[0].1, marker)->0;
        let rest = groups.drop_first();
        assert forall|i: int, j: int| 0 <= i < j < rest.len() implies (#[trigger] rest[i]).0 != (#[trigger] rest[j]).0 by {
            assert(rest[i] == groups[i + 1] && rest[j] == groups[j + 1]);
        }
        assert forall|i: int| 0 <= i < rest.len() implies view_group_has_marker((#[trigger] rest[i]).1, marker) by {
            assert(rest[i] == groups[i + 1]);
        }
        lemma_merge_events_settle(h2, rest, marker);
        lemma_merge_event_settles(h, groups[0].0, groups[0].1, marker);
        assert forall|k: int| 0 <= k < rest.len() implies (#[trigger] rest[k]).0 != groups[0].0 by {
            assert(rest[k] == groups[k + 1]);
        }
        lemma_merge_events_keep_settled(h2, rest, groups[0].0, groups[0].1, marker);
        assert forall|k: int| 0 <= k < groups.len() implies settled(merge_events(h, groups, marker)->0, (#[trigger] groups[k]).0, groups[k].1, marker) by {
            if k > 0 {
                assert(groups[k] == rest[k - 1]);
            }
        }
    }
}

/// Hooks whose generated groups are all settled are a fixed point of merging.
proof fn lemma_merge_events_fixed(
    h: Seq<(Seq<char>, JsonView)>,
    groups: Seq<(Seq<char>, JsonView)>,
    marker: Seq<char>,
)
    requires
        forall|i: int| 0 <= i < groups.len() ==> view_group_has_marker((#[trigger] groups[i]).1, marker),
        forall|k: int| 0 <= k < groups.len() ==> settled(h, (#[trigger] groups[k]).0, groups[k].1, marker),
    ensures
        merge_events(h, groups, marker) == Some(h),
    decreases groups.len(),
{
    if groups.len() > 0 {
        assert(settled(h, groups[0].0, groups[0].1, marker));
        lemma_merge_settled_event(h, groups[0].0, groups[0].1, marker);
        let rest = groups.drop_first();
        assert forall|i: int| 0 <= i < rest.len() implies view_group_has_marker((#[trigger] rest[i]).1, marker) by {
            assert(rest[i] == groups[i + 1]);
        }
        assert forall|k: int| 0 <= k < rest.len() implies settled(h, (#[trigger] rest[k]).0, rest[k].1, marker) by {
            assert(rest[k] == groups[k + 1]);
        }
        lemma_merge_events_fixed(h, rest, marker);
    }
}

/// Installing twice is installing once: merging the same generated groups (one per event,
/// each carrying the marker) into an already merged hooks file changes nothing.
pub proof fn law_merge_hooks_idempotent(
    existing: Option<JsonView>,
    groups: Seq<(Seq<char>, JsonView)>,
    marker: Seq<char>,
)
    requires
        generated_groups_ok(groups, marker),
        spec_merge_hooks(existing, groups, marker) is Ok,
    ensures
        spec_merge_hooks(Some(spec_merge_hooks(existing, groups, marker)->Ok_0), groups, marker) == spec_merge_hooks(
            existing,
            groups,
            marker,
        ),
{
    let root = match existing {
        Some(v) => v,
        None => JsonView::Object(Seq::empty()),
    };
    match root {
        JsonView::Object(root_es) => {
            lemma_view_index(root_es, "hooks"@);
            let at = view_index(root_es, "hooks"@);
            let h = match at {
                None => Seq::<(Seq<char>, JsonView)>::empty(),
                Some(i) => match root_es[i].1 {
                    JsonView::Object(h) => h,
                    _ => Seq::empty(),
                },
            };
            let m = merge_events(h, groups, marker)->0;
            lemma_merge_events_settle(h, groups, marker);
            lemma_merge_events_fixed(m, groups, marker);
            let merged_es = match at {
                None => root_es.push(("hooks"@, JsonView::Object(m))),
                Some(i) => root_es.update(i, ("hooks"@, JsonView::Object(m))),
            };
            match at {
                None => {
                    assert forall|k: int| 0 <= k < root_es.len() implies (#[trigger] merged_es[k]).0 != "hooks"@ by {
                        assert(merged_es[k] == root_es[k]);
                    }
                    lemma_view_index_first(merged_es, "hooks"@, root_es.len() as int);
                    assert(merged_es.update(root_es.len() as int, ("hooks"@, JsonView::Object(m))) =~= merged_es);
                },
                Some(i) => {
                    assert forall|k: int| 0 <= k < root_es.len() implies ((#[trigger] root_es[k]).0 == "hooks"@) == (merged_es[k].0 == "hooks"@) by {
                        if k != i {
                            assert(merged_es[k] == root_es[k]);
                        }
                    }
                    lemma_view_index_same_keys(root_es, merged_es, "hooks"@);
                    assert(merged_es.update(i, ("hooks"@, JsonView::Object(m))) =~= merged_es);
                },
            }
        },
        _ => {},
    }
}

/// The value of the first member named `key`.
pub open spec fn member_at(es: Seq<(Seq<char>, JsonView)>, key: Seq<char>) -> Option<JsonView> {
    match view_index(es, key) {
        Some(i) => Some(es[i].1),
        None => None,
    }
}

/// The members of a hooks file's root object (none when there is no file).
pub open spec fn root_members(file: Option<JsonView>) -> Seq<(Seq<char>, JsonView)> {
    match file {
        Some(JsonView::Object(es)) => es,
        _ => Seq::empty(),
    }
}

/// The events under the root's `hooks` object (none when it has no such member).
pub open spec fn hook_members(root: Seq<(Seq<char>, JsonView)>) -> Seq<(Seq<char>, JsonView)> {
    match member_at(root, "hooks"@) {
        Some(JsonView::Object(h)) => h,
        _ => Seq::empty(),
    }
}

/// An event's groups after the merge: those it had that Sprocket did not write, in their
/// order, then the generated group.
pub open spec fn merged_groups(before: Option<JsonView>, group: JsonView, marker: Seq<char>) -> Option<JsonView> {
    match before {
        None => Some(JsonView::Array(seq![group])),
        Some(JsonView::Array(items)) => Some(JsonView::Array(items.filter(unmarked(marker)).push(group))),
        Some(_) => None,
    }
}

/// Setting a member (in place when the key is there, appended otherwise) gives it the new
/// value and leaves every other key as it was.
proof fn lemma_set_member(es: Seq<(Seq<char>, JsonView)>, key: Seq<char>, v: JsonView)
    ensures
        view_index(es, key) is None ==> member_at(es.push((key, v)), key) == Some(v) && forall|
            e: Seq<char>,
        | e != key ==> #[trigger] member_at(es.push((key, v)), e) == member_at(es, e),
        view_index(es, key) matches Some(i) ==> member_at(es.update(i, (key, v)), key) == Some(v)
            && forall|e: Seq<char>| e != key ==> #[trigger] member_at(es.update(i, (key, v)), e)
            == member_at(es, e),
{
    lemma_view_index(es, key);
    match view_index(es, key) {
        None => {
            let es2 = es.push((key, v));
            assert forall|k: int| 0 <= k < es.len() implies (#[trigger] es2[k]).0 != key by {
                assert(es2[k] == es[k]);
            }
            lemma_view_index_first(es2, key, es.len() as int);
            assert forall|e: Seq<char>| e != key implies #[trigger] member_at(es2, e) == member_at(es, e) by {
                lemma_view_index(es, e);
                match view_index(es, e) {
                    Some(j) => {
                        assert forall|k: int| 0 <= k < j implies (#[trigger] es2[k]).0 != e by {
                            assert(es2[k] == es[k]);
                        }
                        assert(es2[j] == es[j]);
                        lemma_view_index_first(es2, e, j);
                    },
                    None => {
                        assert forall|k: int| 0 <= k < es2.len() implies (#[trigger] es2[k]).0 != e by {
                            if k < es.len() {
                                assert(es2[k] == es[k]);
                            }
                        }
                        lemma_view_index_absent(es2, e);
                    },
                }
            }
        },
        Some(i) => {
            let es2 = es.update(i, (key, v));
            assert forall|e: Seq<char>| #[trigger] member_at(es2, e) == (if e == key {
                Some(v)
            } else {
                member_at(es, e)
            }) by {
                assert forall|k: int| 0 <= k < es.len() implies ((#[trigger] es[k]).0 == e) == (es2[k].0 == e) by {
                    if k != i {
                        assert(es2[k] == es[k]);
                    }
                }
                lemma_view_index_same_keys(es, es2, e);
                lemma_view_index(es, e);
                match view_index(es, e) {
                    Some(j) => {
                        if j != i {
                            assert(es2[j] == es[j]);
                        }
                    },
                    None => {},
                }
            }
        },
    }
}

/// Merging one generated group gives its event the merged groups and leaves every other
/// event as it was.
proof fn lemma_merge_event_members(
    h: Seq<(Seq<char>, JsonView)>,
    event: Seq<char>,
    group: JsonView,
    marker: Seq<char>,
)
    requires
        merge_event(h, event, group, marker) is Some,
    ensures
        member_at(merge_event(h, event, group, marker)->0, event) == merged_groups(
            member_at(h, event),
            group,
            marker,
        ),
        forall|e: Seq<char>|
            e != event ==> #[trigger] member_at(merge_event(h, event, group, marker)->0, e)
                == member_at(h, e),
{
    lemma_set_member(h, event, merge_groups_value(h, event, group, marker));
}

/// The value `merge_event` writes for its event.
spec fn merge_groups_value(h: Seq<(Seq<char>, JsonView)>, event: Seq<char>, group: JsonView, marker: Seq<char>) -> JsonView {
    match view_index(h, event) {
        None => JsonView::Array(seq![group]),
        Some(i) => match h[i].1 {
            JsonView::Array(items) => JsonView::Array(items.filter(unmarked(marker)).push(group)),
            _ => JsonView::Null,
        },
    }
}

/// Merging groups for distinct events: an event that gets no group keeps its member, an
/// event that gets one ends with its merged groups.
proof fn lemma_merge_events_members(
    h: Seq<(Seq<char>, JsonView)>,
    groups: Seq<(Seq<char>, JsonView)>,
    marker: Seq<char>,
    e: Seq<char>,
)
    requires
        forall|i: int, j: int| 0 <= i < j < groups.len() ==> (#[trigger] groups[i]).0 != (#[trigger] groups[j]).0,
        merge_events(h, groups, marker) is Some,
    ensures
        (forall|k: int| 0 <= k < groups.len() ==> (#[trigger] groups[k]).0 != e) ==> member_at(
            merge_events(h, groups, marker)->0,
            e,
        ) == member_at(h, e),
        forall|k: int|
            0 <= k < groups.len() && (#[trigger] groups[k]).0 == e ==> member_at(
                merge_events(h, groups, marker)->0,
                e,
            ) == merged_groups(member_at(h, e), groups[k].1, marker),
    decreases groups.len(),
{
    if groups.len() > 0 {
        let h1 = merge_event(h, groups[0].0, groups[0].1, marker)->0;
        let rest = groups.drop_first();
        assert forall|i: int, j: int| 0 <= i < j < rest.len() implies (#[trigger] rest[i]).0 != (#[trigger] rest[j]).0 by {
            assert(rest[i] == groups[i + 1] && rest[j] == groups[j + 1]);
        }
        lemma_merge_event_members(h, groups[0].0, groups[0].1, marker);
        lemma_merge_events_members(h1, rest, marker, e);
        assert forall|k: int| 0 <= k < groups.len() && (#[trigger] groups[k]).0 == e implies member_at(
            merge_events(h, groups, marker)->0,
            e,
        ) == merged_groups(member_at(h, e), groups[k].1, marker) by {
            if k == 0 {
                assert forall|m: int| 0 <= m < rest.len() implies (#[trigger] rest[m]).0 != e by {
                    assert(rest[m] == groups[m + 1]);
                }
            } else {
                assert(rest[k - 1] == groups[k]);
                assert(groups[0].0 != groups[k].0);
            }
        }
        if forall|k: int| 0 <= k < groups.len() ==> (#[trigger] groups[k]).0 != e {
            assert(groups[0].0 != e);
            assert forall|m: int| 0 <= m < rest.len() implies (#[trigger] rest[m]).0 != e by {
                assert(rest[m] == groups[m + 1]);
            }
        }
    }
}

/// No two generated groups are for the same event.
pub open spec fn distinct_events(groups: Seq<(Seq<char>, JsonView)>) -> bool {
    forall|i: int, j: int| 0 <= i < j < groups.len() ==> (#[trigger] groups[i]).0 != (#[trigger] groups[j]).0
}

/// What a merge needs of the hooks file: a root object (or no file), a `hooks` member that
/// is an object when present, and, for each event a group is generated for, an array when
/// the event is present.
pub open spec fn merge_accepts(existing: Option<JsonView>, groups: Seq<(Seq<char>, JsonView)>) -> bool {
    &&& existing matches Some(v) ==> v is Object
    &&& member_at(root_members(existing), "hooks"@) matches Some(h) ==> h is Object
    &&& forall|k: int|
        0 <= k < groups.len() ==> (member_at(hook_members(root_members(existing)), (#[trigger] groups[k]).0)
            matches Some(v) ==> v is Array)
}

/// Merging groups for distinct events succeeds exactly when each of those events is absent
/// or an array.
proof fn lemma_merge_events_some(
    h: Seq<(Seq<char>, JsonView)>,
    groups: Seq<(Seq<char>, JsonView)>,
    marker: Seq<char>,
)
    requires
        distinct_events(groups),
    ensures
        merge_events(h, groups, marker) is Some <==> forall|k: int|
            0 <= k < groups.len() ==> (member_at(h, (#[trigger] groups[k]).0) matches Some(v) ==> v is Array),
    decreases groups.len(),
{
    if groups.len() > 0 {
        let e = groups[0].0;
        let first_ok = member_at(h, e) matches Some(v) ==> v is Array;
        assert(merge_event(h, e, groups[0].1, marker) is Some <==> first_ok);
        if !first_ok {
            assert(!(forall|k: int|
                0 <= k < groups.len() ==> (member_at(h, (#[trigger] groups[k]).0) matches Some(v) ==> v is Array)));
        } else {
            let h1 = merge_event(h, e, groups[0].1, marker)->0;
            let rest = groups.drop_first();
            assert forall|i: int, j: int| 0 <= i < j < rest.len() implies (#[trigger] rest[i]).0 != (#[trigger] rest[j]).0 by {
                assert(rest[i] == groups[i + 1] && rest[j] == groups[j + 1]);
            }
            lemma_merge_event_members(h, e, groups[0].1, marker);
            lemma_merge_events_some(h1, rest, marker);
            assert forall|k: int| 0 <= k < rest.len() implies member_at(h1, (#[trigger] rest[k]).0) == member_at(h, rest[k].0) by {
                assert(rest[k] == groups[k + 1]);
                assert(groups[0].0 != groups[k + 1].0);
            }
            if forall|k: int| 0 <= k < groups.len() ==> (member_at(h, (#[trigger] groups[k]).0) matches Some(v) ==> v is Array) {
                assert forall|k: int| 0 <= k < rest.len() implies (member_at(h1, (#[trigger] rest[k]).0) matches Some(v) ==> v is Array) by {
                    assert(rest[k] == groups[k + 1]);
                }
            }
            if merge_events(h1, rest, marker) is Some {
                assert forall|k: int| 0 <= k < groups.len() implies (member_at(h, (#[trigger] groups[k]).0) matches Some(v) ==> v is Array) by {
                    if k > 0 {
                        assert(rest[k - 1] == groups[k]);
                    }
                }
            }
        }
    }
}

/// Merging generated groups for distinct events succeeds exactly when the hooks file is an
/// object (or absent), its `hooks` member an object (or absent), and every event a group is
/// generated for an array (or absent); the result is then an object again.
pub proof fn law_merge_ok_exactly_when(
    existing: Option<JsonView>,
    groups: Seq<(Seq<char>, JsonView)>,
    marker: Seq<char>,
)
    requires
        distinct_events(groups),
    ensures
        spec_merge_hooks(existing, groups, marker) is Ok <==> merge_accepts(existing, groups),
        spec_merge_hooks(existing, groups, marker) matches Ok(v) ==> v is Object,
{
    let root_es = root_members(existing);
    lemma_view_index(root_es, "hooks"@);
    let h = hook_members(root_es);
    lemma_merge_events_some(h, groups, marker);
}

/// Installing replaces only Sprocket's own hook groups: every root member other than
/// `hooks` and every event the installer writes no group for stay as they were, and each
/// event it writes a group for keeps its other groups, in their order, followed by the
/// generated group.
pub proof fn law_merge_replaces_only_managed_groups(
    existing: Option<JsonView>,
    groups: Seq<(Seq<char>, JsonView)>,
    marker: Seq<char>,
    key: Seq<char>,
)
    requires
        distinct_events(groups),
        spec_merge_hooks(existing, groups, marker) is Ok,
    ensures
        ({
            let after = root_members(Some(spec_merge_hooks(existing, groups, marker)->Ok_0));
            let before = root_members(existing);
            &&& key != "hooks"@ ==> member_at(after, key) == member_at(before, key)
            &&& (forall|k: int| 0 <= k < groups.len() ==> (#[trigger] groups[k]).0 != key) ==> member_at(
                hook_members(after),
                key,
            ) == member_at(hook_members(before), key)
            &&& forall|k: int|
                0 <= k < groups.len() && (#[trigger] groups[k]).0 == key ==> member_at(
                    hook_members(after),
                    key,
                ) == merged_groups(member_at(hook_members(before), key), groups[k].1, marker)
        }),
{
    let root_es = root_members(existing);
    lemma_view_index(root_es, "hooks"@);
    let at = view_index(root_es, "hooks"@);
    let h = hook_members(root_es);
    let m = merge_events(h, groups, marker)->0;
    lemma_merge_events_members(h, groups, marker, key);
    lemma_set_member(root_es, "hooks"@, JsonView::Object(m));
    match at {
        None => {
            assert(member_at(root_es.push(("hooks"@, JsonView::Object(m))), "hooks"@) == Some(JsonView::Object(m)));
        },
        Some(i) => {
            assert(member_at(root_es.update(i, ("hooks"@, JsonView::Object(m))), "hooks"@) == Some(JsonView::Object(m)));
        },
    }
}

fn index_of_member(es: &Vec<(String, JsonValue)>, key: &str) -> (r: Option<usize>)
    ensures
        match r {
            Some(i) => view_index(member_views(es@), key@) == Some(i as int),
            None => view_index(member_views(es@), key@) is None,
        },
{
    proof {
        lemma_member_views(es@);
        lemma_view_index(member_views(es@), key@);
    }
    let mut i: usize = 0;
    while i < es.len()
        invariant
            i <= es@.len(),
            member_views(es@) == es@.map_values(|e: (String, JsonValue)| (e.0@, json_view(e.1))),
            forall|k: int| 0 <= k < i ==> (#[trigger] member_views(es@)[k]).0 != key@,
            view_index(member_views(es@), key@) matches Some(j) ==> i <= j,
        decreases es.len() - i,
    {
        proof {
            lemma_member_views(es@);
        }
        assert(member_views(es@)[i as int].0 == es@[i as int].0@);
        proof {
            lemma_view_index(member_views(es@), key@);
        }
        if str_eq(es[i].0.as_str(), key) {
            return Some(i);
        }
        i = i + 1;
    }
    None
}

fn retain_unmarked(items: Vec<JsonValue>, marker: &str) -> (r: Vec<JsonValue>)
    ensures
        item_views(r@) == item_views(items@).filter(unmarked(marker@)),
{
    let ghost orig = items@;
    let ghost views = item_views(orig);
    proof {
        lemma_item_views(orig);
    }
    let mut rest = items;
    let mut r: Vec<JsonValue> = Vec::new();
    let ghost mut i: int = 0;
    assert(views.take(0).filter(unmarked(marker@)) =~= Seq::<JsonView>::empty()) by {
        reveal(Seq::filter);
    }
    proof {
        lemma_item_views(r@);
    }
    assert(orig.skip(0) =~= orig);
    while rest.len() > 0
        invariant
            0 <= i <= orig.len(),
            rest@ == orig.skip(i),
            views == item_views(orig),
            views == orig.map_values(|x: JsonValue| json_view(x)),
            item_views(r@) == views.take(i).filter(unmarked(marker@)),
        decreases rest.len(),
    {
        let g = rest.remove(0);
        let keep = !group_contains_marker(&g, marker);
        proof {
            reveal(Seq::filter);
            assert(views.take(i + 1).drop_last() =~= views.take(i));
            assert(views.take(i + 1).last() == json_view(g));
            i = i + 1;
            assert(rest@ =~= orig.skip(i));
        }
        if keep {
            let ghost before = r@;
            r.push(g);
            proof {
                lemma_item_views(before);
                lemma_item_views(r@);
                assert(r@.map_values(|x: JsonValue| json_view(x)) =~= before.map_values(
                    |x: JsonValue| json_view(x),
                ).push(json_view(g)));
            }
        }
    }
    assert(views.take(orig.len() as int) =~= views);
    r
}

proof fn lemma_member_views_update(es: Seq<(String, JsonValue)>, i: int, e: (String, JsonValue))
    requires
        0 <= i < es.len(),
    ensures
        member_views(es.update(i, e)) == member_views(es).update(i, (e.0@, json_view(e.1))),
{
    lemma_member_views(es);
    lemma_member_views(es.update(i, e));
    assert(member_views(es.update(i, e)) =~= member_views(es).update(i, (e.0@, json_view(e.1))));
}

proof fn lemma_member_views_push(es: Seq<(String, JsonValue)>, e: (String, JsonValue))
    ensures
        member_views(es.push(e)) == member_views(es).push((e.0@, json_view(e.1))),
{
    lemma_member_views(es);
    lemma_member_views(es.push(e));
    assert(member_views(es.push(e)) =~= member_views(es).push((e.0@, json_view(e.1))));
}

fn merge_event_exec(
    hooks: &mut Vec<(String, JsonValue)>,
    event: String,
    group: JsonValue,
    marker: &str,
) -> (r: Result<(), HooksJsonError>)
    ensures
        match merge_event(member_views(old(hooks)@), event@, json_view(group), marker@) {
            Some(h) => r is Ok && member_views(final(hooks)@) == h,
            None => r == Err::<(), HooksJsonError>(HooksJsonError::EventNotArray),
        },
{
    proof {
        lemma_member_views(hooks@);
        lemma_view_index(member_views(hooks@), event@);
    }
    match index_of_member(hooks, event.as_str()) {
        None => {
            let mut items: Vec<JsonValue> = Vec::new();
            let ghost gv = json_view(group);
            items.push(group);
            proof {
                lemma_item_views(items@);
                assert(item_views(items@) =~= seq![gv]);
                lemma_member_views_push(hooks@, (event, JsonValue::Array(items)));
            }
            hooks.push((event, JsonValue::Array(items)));
            Ok(())
        },
        Some(i) => {
            let ghost before = hooks@;
            let (key, value) = hooks.remove(i);
            assert(member_views(before)[i as int] == (key@, json_view(value)));
            let items = match value {
                JsonValue::Array(items) => items,
                _ => {
                    return Err(HooksJsonError::EventNotArray);
                },
            };
            let ghost gv = json_view(group);
            let mut kept = retain_unmarked(items, marker);
            let ghost kept_before = kept@;
            kept.push(group);
            proof {
                lemma_item_views(kept_before);
                lemma_item_views(kept@);
                assert(item_views(kept@) =~= item_views(kept_before).push(gv));
                assert(key@ == event@);
            }
            let ghost entry = (key, JsonValue::Array(kept));
            hooks.insert(i, (key, JsonValue::Array(kept)));
            proof {
                assert(hooks@ =~= before.update(i as int, entry));
                lemma_member_views_update(before, i as int, entry);
            }
            Ok(())
        },
    }
}

/// The views of generated groups.
pub open spec fn group_views(groups: Seq<(String, JsonValue)>) -> Seq<(Seq<char>, JsonView)> {
    member_views(groups)
}

/// The view of an optional JSON value.
pub open spec fn opt_json_view(v: Option<JsonValue>) -> Option<JsonView> {
    match v {
        Some(x) => Some(json_view(x)),
        None => None,
    }
}

/// Merges generated hook groups into the hooks file: under `hooks`, each event keeps its
/// groups except those holding `marker`, and gets its generated group last.
pub fn merge_hooks_json(
    existing: Option<JsonValue>,
    generated_groups: Vec<(String, JsonValue)>,
    marker: &str,
) -> (r: Result<JsonValue, HooksJsonError>)
    ensures
        match r {
            Ok(v) => spec_merge_hooks(opt_json_view(existing), group_views(generated_groups@), marker@)
                == Ok::<JsonView, HooksJsonError>(json_view(v)),
            Err(e) => spec_merge_hooks(opt_json_view(existing), group_views(generated_groups@), marker@)
                == Err::<JsonView, HooksJsonError>(e),
        },
{
    let ghost existing_view = opt_json_view(existing);
    let ghost gviews = group_views(generated_groups@);
    let root = match existing {
        Some(v) => v,
        None => JsonValue::Object(Vec::new()),
    };
    proof {
        if existing is None {
            assert(member_views(Seq::<(String, JsonValue)>::empty()) =~= Seq::empty());
        }
    }
    let mut root_entries = match root {
        JsonValue::Object(es) => es,
        _ => return Err(HooksJsonError::RootNotObject),
    };
    let ghost root_before = root_entries@;
    let ghost root_view = member_views(root_before);
    assert(existing_view matches Some(v) ==> v == JsonView::Object(root_view));
    proof {
        lemma_member_views(root_before);
        lemma_view_index(root_view, "hooks"@);
    }
    let at = index_of_member(&root_entries, "hooks");
    let ghost at_view = view_index(root_view, "hooks"@);
    let mut hooks: Vec<(String, JsonValue)> = match at {
        None => Vec::new(),
        Some(i) => {
            let (_key, value) = root_entries.remove(i);
            assert(root_view[i as int].1 == json_view(value));
            match value {
                JsonValue::Object(h) => h,
                _ => return Err(HooksJsonError::HooksNotObject),
            }
        },
    };
    proof {
        if at is None {
            assert(member_views(hooks@) =~= Seq::empty());
        }
    }
    let ghost hooks_start = member_views(hooks@);
    assert(spec_merge_hooks(existing_view, gviews, marker@) == (match merge_events(
        hooks_start,
        gviews,
        marker@,
    ) {
        None => Err(HooksJsonError::EventNotArray),
        Some(m) => Ok(
            JsonView::Object(
                match at_view {
                    None => root_view.push(("hooks"@, JsonView::Object(m))),
                    Some(i) => root_view.update(i, ("hooks"@, JsonView::Object(m))),
                },
            ),
        ),
    }));
    let mut groups = generated_groups;
    let ghost mut done: int = 0;
    proof {
        lemma_member_views(groups@);
    }
    let ghost all_groups = groups@;
    assert(all_groups.skip(0) =~= all_groups);
    assert(gviews.skip(0) =~= gviews);
    while groups.len() > 0
        invariant
            0 <= done <= all_groups.len(),
            groups@ == all_groups.skip(done),
            gviews == member_views(all_groups),
            existing_view == opt_json_view(existing),
            gviews == group_views(generated_groups@),
            gviews == all_groups.map_values(|e: (String, JsonValue)| (e.0@, json_view(e.1))),
            merge_events(hooks_start, gviews, marker@) == merge_events(
                member_views(hooks@),
                gviews.skip(done),
                marker@,
            ),
            spec_merge_hooks(existing_view, gviews, marker@) == (match merge_events(
                hooks_start,
                gviews,
                marker@,
            ) {
                None => Err(HooksJsonError::EventNotArray),
                Some(m) => Ok(
                    JsonView::Object(
                        match at_view {
                            None => root_view.push(("hooks"@, JsonView::Object(m))),
                            Some(i) => root_view.update(i, ("hooks"@, JsonView::Object(m))),
                        },
                    ),
                ),
            }),
        decreases groups.len(),
    {
        let (event, group) = groups.remove(0);
        proof {
            assert(gviews.skip(done)[0] == (event@, json_view(group)));
            assert(gviews.skip(done).drop_first() =~= gviews.skip(done + 1));
        }
        let ghost hv = member_views(hooks@);
        let ghost step = merge_event(hv, event@, json_view(group), marker@);
        match merge_event_exec(&mut hooks, event, group, marker) {
            Ok(()) => {},
            Err(e) => {
                proof {
                    assert(step is None);
                    assert(gviews.skip(done).len() > 0);
                    assert(merge_events(hv, gviews.skip(done), marker@) is None);
                    assert(e == HooksJsonError::EventNotArray);
                    assert(spec_merge_hooks(existing_view, gviews, marker@) == Err::<
                        JsonView,
                        HooksJsonError,
                    >(e));
                    assert(existing_view == opt_json_view(existing));
                }
                return Err(e);
            },
        }
        proof {
            done = done + 1;
            assert(groups@ =~= all_groups.skip(done));
        }
    }
    proof {
        assert(gviews.skip(done) =~= Seq::<(Seq<char>, JsonView)>::empty());
    }
    let ghost merged = member_views(hooks@);
    let entry = (String::from_str("hooks"), JsonValue::Object(hooks));
    let ghost ev = (entry.0@, json_view(entry.1));
    assert(ev == ("hooks"@, JsonView::Object(merged)));
    let ghost before = root_entries@;
    match at {
        None => {
            root_entries.push(entry);
            proof {
                lemma_member_views(root_entries@);
                assert(member_views(root_entries@) =~= root_view.push(ev));
            }
        },
        Some(i) => {
            root_entries.insert(i, entry);
            proof {
                lemma_member_views(root_entries@);
                assert(root_entries@ =~= root_before.update(i as int, entry));
                assert(member_views(root_entries@) =~= root_view.update(i as int, ev));
            }
        },
    }
    Ok(JsonValue::Object(root_entries))
}

} // verus!
