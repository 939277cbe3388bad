//! Hyprland: the JSON that `hyprctl` prints, read into the dock's types;
//! the event lines of the IPC socket; which windows belong to an app; the
//! short-lived memo of the window list.

use vstd::prelude::*;
use vstd::utf8::encode_utf8;
use crate::text::{
    chars_eq, chars_of, first_index, has_prefix, lemma_first_index, lowercase,
    split_chars, split_seq, starts_with, string_of, to_lowercase, trim, trim_chars, views, words,
    split_words, Separator, int_chars, int_text, append_chars, spec_parse_i32, parse_i32,
    skip_chars, lemma_split_nonempty,
};

verus! {

// ── JSON values ─────────────────────────────────────────────────────────

#[verifier::external_type_specification]
#[verifier::external_body]
pub struct ExJsonValue(serde_json::Value);

/// A JSON number as serde_json reads it.
pub struct JsonNumber {
    /// The value when it is an integer within `i64`.
    pub as_i64: Option<i64>,
    /// The value when it is an integer within `u64`.
    pub as_u64: Option<u64>,
    /// The number printed back as JSON.
    pub text: String,
}

/// A member of a JSON object.
pub struct JsonMember {
    pub key: String,
    pub value: Json,
}

/// A JSON value. Arrays and objects also carry their compact JSON text.
pub enum Json {
    Null,
    Bool(bool),
    Number(JsonNumber),
    Str(String),
    Array(Vec<Json>, String),
    Object(Vec<JsonMember>, String),
}

/// What `serde_json::from_slice::<serde_json::Value>` yields for these
/// bytes, in the library's form; `None` when they are not one JSON value.
pub uninterp spec fn parsed_json(bytes: Seq<u8>) -> Option<Json>;

/// Rebuilds a serde_json value in the library's form, member for member.
#[verifier::external_body]
fn json_of_value(v: &serde_json::Value) -> Json {
    match v {
        serde_json::Value::Null => Json::Null,
        serde_json::Value::Bool(b) => Json::Bool(*b),
        serde_json::Value::Number(n) => Json::Number(
            JsonNumber { as_i64: n.as_i64(), as_u64: n.as_u64(), text: n.to_string() },
        ),
        serde_json::Value::String(s) => Json::Str(s.clone()),
        serde_json::Value::Array(a) => Json::Array(a.iter().map(json_of_value).collect(), v.to_string()),
        serde_json::Value::Object(m) => Json::Object(
            m.iter().map(|(k, x)| JsonMember { key: k.clone(), value: json_of_value(x) }).collect(),
            v.to_string(),
        ),
    }
}

/// `serde_json::from_slice::<serde_json::Value>`: parses one JSON value;
/// `None` when the bytes are not one. The result is a function of the bytes.
#[verifier::external_body]
pub(crate) fn parse_json(bytes: &[u8]) -> (r: Option<Json>)
    ensures
        r == parsed_json(bytes@),
{
    serde_json::from_slice::<serde_json::Value>(bytes).ok().map(|v| json_of_value(&v))
}

/// Whether a member is named `key`.
pub open spec fn key_is(key: Seq<char>) -> spec_fn(JsonMember) -> bool {
    |m: JsonMember| m.key@ == key
}

/// The value of the first member named `key`.
pub open spec fn member_get(ms: Seq<JsonMember>, key: Seq<char>) -> Option<Json> {
    match first_index(ms, key_is(key)) {
        Some(i) => Some(ms[i].value),
        None => None,
    }
}

/// `Value::get(key)`: the member `key` of an object, `None` otherwise.
pub open spec fn json_get(v: Option<Json>, key: Seq<char>) -> Option<Json> {
    match v {
        Some(Json::Object(ms, _)) => member_get(ms@, key),
        _ => None,
    }
}

/// `Value::as_str`.
pub open spec fn json_str(v: Option<Json>) -> Option<Seq<char>> {
    match v {
        Some(Json::Str(s)) => Some(s@),
        _ => None,
    }
}

/// `Value::as_i64`.
pub open spec fn json_i64(v: Option<Json>) -> Option<i64> {
    match v {
        Some(Json::Number(n)) => n.as_i64,
        _ => None,
    }
}

/// `Value::as_u64`.
pub open spec fn json_u64(v: Option<Json>) -> Option<u64> {
    match v {
        Some(Json::Number(n)) => n.as_u64,
        _ => None,
    }
}

/// `Value::as_array`.
pub open spec fn json_array(v: Option<Json>) -> Option<Seq<Json>> {
    match v {
        Some(Json::Array(a, _)) => Some(a@),
        _ => None,
    }
}

/// `ToString` of a value: the string itself is not meant here; every other
/// value prints as JSON.
pub open spec fn json_text(v: Json) -> Seq<char> {
    match v {
        Json::Null => "null"@,
        Json::Bool(b) => if b {
            "true"@
        } else {
            "false"@
        },
        Json::Number(n) => n.text@,
        Json::Str(s) => s@,
        Json::Array(_, t) => t@,
        Json::Object(_, t) => t@,
    }
}

/// The member `key` of `v` when `v` is an object.
pub fn get_member<'a>(v: Option<&'a Json>, key: &str) -> (r: Option<&'a Json>)
    ensures
        match r {
            Some(j) => json_get(deref_json(v), key@) == Some(*j),
            None => json_get(deref_json(v), key@) is None,
        },
{
    match v {
        Some(Json::Object(ms, _)) => {
            let k = chars_of(key);
            let ghost p = key_is(key@);
            let mut i: usize = 0;
            while i < ms.len()
                invariant
                    i <= ms.len(),
                    k@ == key@,
                    p == key_is(key@),
                    json_get(deref_json(v), key@) == member_get(ms@, key@),
                    forall|j: int| 0 <= j < i ==> !p(#[trigger] ms@[j]),
                decreases ms.len() - i,
            {
                let hit = chars_eq(&chars_of(ms[i].key.as_str()), &k);
                assert(hit == p(ms@[i as int]));
                if hit {
                    proof {
                        lemma_first_index(ms@, p);
                    }
                    return Some(&ms[i].value);
                }
                i = i + 1;
            }
            proof {
                lemma_first_index(ms@, p);
            }
            None
        },
        _ => None,
    }
}

/// The value behind an optional reference.
pub open spec fn deref_json(v: Option<&Json>) -> Option<Json> {
    match v {
        Some(j) => Some(*j),
        None => None,
    }
}

/// `Value::as_str` as an owned string.
pub fn as_str(v: Option<&Json>) -> (r: Option<String>)
    ensures
        match r {
            Some(s) => json_str(deref_json(v)) == Some(s@),
            None => json_str(deref_json(v)) is None,
        },
{
    match v {
        Some(Json::Str(s)) => Some(s.clone()),
        _ => None,
    }
}

/// `Value::as_i64`.
pub fn as_i64(v: Option<&Json>) -> (r: Option<i64>)
    ensures
        r == json_i64(deref_json(v)),
{
    match v {
        Some(Json::Number(n)) => n.as_i64,
        _ => None,
    }
}

/// `Value::as_u64`.
pub fn as_u64(v: Option<&Json>) -> (r: Option<u64>)
    ensures
        r == json_u64(deref_json(v)),
{
    match v {
        Some(Json::Number(n)) => n.as_u64,
        _ => None,
    }
}

/// The text of a value as `ToString` prints it (strings as themselves).
pub fn text_of(v: &Json) -> (r: String)
    ensures
        r@ == json_text(*v),
{
    match v {
        Json::Null => "null".to_owned(),
        Json::Bool(b) => if *b {
            "true".to_owned()
        } else {
            "false".to_owned()
        },
        Json::Number(n) => n.text.clone(),
        Json::Str(s) => s.clone(),
        Json::Array(_, t) => t.clone(),
        Json::Object(_, t) => t.clone(),
    }
}

// ── Windows ─────────────────────────────────────────────────────────────

/// The workspace a window is on.
#[derive(Debug, Clone)]
pub struct HyprWorkspace {
    pub id: i32,
    pub name: String,
}

/// The abstract value of a `HyprWorkspace`.
pub struct HyprWorkspaceView {
    pub id: i32,
    pub name: Seq<char>,
}

impl View for HyprWorkspace {
    type V = HyprWorkspaceView;

    open spec fn view(&self) -> HyprWorkspaceView {
        HyprWorkspaceView { id: self.id, name: self.name@ }
    }
}

/// A window as `hyprctl clients -j` describes it.
#[derive(Debug, Clone)]
pub struct HyprClient {
    pub address: String,
    pub stable_id: Option<String>,
    pub class: String,
    pub title: String,
    pub pid: i32,
    pub workspace: HyprWorkspace,
    /// Hyprland monitor index (0-based). -1 if unknown.
    pub monitor: i32,
    pub at: [i32; 2],
    pub size: [i32; 2],
}

/// The abstract value of a `HyprClient`.
pub struct HyprClientView {
    pub address: Seq<char>,
    pub stable_id: Option<Seq<char>>,
    pub class: Seq<char>,
    pub title: Seq<char>,
    pub pid: i32,
    pub workspace: HyprWorkspaceView,
    pub monitor: i32,
    pub at: (i32, i32),
    pub size: (i32, i32),
}

/// The characters of an optional string.
pub open spec fn ostr(o: Option<String>) -> Option<Seq<char>> {
    match o {
        Some(s) => Some(s@),
        None => None,
    }
}

impl View for HyprClient {
    type V = HyprClientView;

    open spec fn view(&self) -> HyprClientView {
        HyprClientView {
            address: self.address@,
            stable_id: ostr(self.stable_id),
            class: self.class@,
            title: self.title@,
            pid: self.pid,
            workspace: self.workspace@,
            monitor: self.monitor,
            at: (self.at[0], self.at[1]),
            size: (self.size[0], self.size[1]),
        }
    }
}

impl HyprClient {
    /// A copy with the same abstract value.
    pub fn duplicate(&self) -> (r: HyprClient)
        ensures
            r@ == self@,
    {
        HyprClient {
            address: self.address.clone(),
            stable_id: match &self.stable_id {
                Some(s) => Some(s.clone()),
                None => None,
            },
            class: self.class.clone(),
            title: self.title.clone(),
            pid: self.pid,
            workspace: HyprWorkspace { id: self.workspace.id, name: self.workspace.name.clone() },
            monitor: self.monitor,
            at: [self.at[0], self.at[1]],
            size: [self.size[0], self.size[1]],
        }
    }
}

/// The abstract values of a list of windows.
pub open spec fn client_views(v: Seq<HyprClient>) -> Seq<HyprClientView> {
    v.map_values(|c: HyprClient| c@)
}

/// A copy of a list of windows.
pub fn clone_clients(v: &Vec<HyprClient>) -> (r: Vec<HyprClient>)
    ensures
        client_views(r@) == client_views(v@),
{
    let mut r: Vec<HyprClient> = Vec::new();
    let mut i: usize = 0;
    while i < v.len()
        invariant
            i <= v.len(),
            client_views(r@) == client_views(v@).take(i as int),
        decreases v.len() - i,
    {
        let ghost before = r@;
        let c = v[i].duplicate();
        r.push(c);
        assert(client_views(r@) =~= client_views(before).push(c@));
        assert(client_views(v@).take(i as int + 1) =~= client_views(v@).take(i as int).push(
            v@[i as int]@,
        ));
        i = i + 1;
    }
    assert(client_views(v@).take(v.len() as int) =~= client_views(v@));
    r
}

/// `n` when present, `d` otherwise.
pub open spec fn or_i64(o: Option<i64>, d: i64) -> i64 {
    match o {
        Some(n) => n,
        None => d,
    }
}

/// The string when present, empty otherwise.
pub open spec fn or_empty(o: Option<Seq<char>>) -> Seq<char> {
    match o {
        Some(s) => s,
        None => Seq::<char>::empty(),
    }
}

/// Element `i` of an array as an `i32`, 0 when absent or not an integer.
pub open spec fn elem_i32(a: Seq<Json>, i: int) -> i32 {
    if 0 <= i < a.len() {
        or_i64(json_i64(Some(a[i])), 0) as i32
    } else {
        0
    }
}

/// A pair of integers read from a JSON array, zeros on anything unexpected.
pub open spec fn spec_arr2(v: Option<Json>) -> (i32, i32) {
    match json_array(v) {
        Some(a) => (elem_i32(a, 0), elem_i32(a, 1)),
        None => (0, 0),
    }
}

/// The window described by a JSON object: only `address` is required;
/// every other field falls back to a default (empty strings, pid 0,
/// workspace 0, monitor -1, zero geometry). A `stableId` that is not a
/// string is kept as its JSON text.
pub open spec fn spec_client(v: Json) -> Option<HyprClientView> {
    let o = Some(v);
    match json_str(json_get(o, "address"@)) {
        None => None,
        Some(address) => Some(
            HyprClientView {
                address: address,
                stable_id: match json_get(o, "stableId"@) {
                    Some(x) => Some(json_text(x)),
                    None => None,
                },
                class: or_empty(json_str(json_get(o, "class"@))),
                title: or_empty(json_str(json_get(o, "title"@))),
                pid: or_i64(json_i64(json_get(o, "pid"@)), 0) as i32,
                workspace: HyprWorkspaceView {
                    id: or_i64(json_i64(json_get(json_get(o, "workspace"@), "id"@)), 0) as i32,
                    name: or_empty(json_str(json_get(json_get(o, "workspace"@), "name"@))),
                },
                monitor: or_i64(json_i64(json_get(o, "monitor"@)), -1i64) as i32,
                at: spec_arr2(json_get(o, "at"@)),
                size: spec_arr2(json_get(o, "size"@)),
            },
        ),
    }
}

/// Reads a pair of integers from a JSON array, defaulting to zeros.
pub fn arr2(v: Option<&Json>) -> (r: [i32; 2])
    ensures
        (r[0], r[1]) == spec_arr2(deref_json(v)),
{
    match v {
        Some(Json::Array(a, _)) => {
            let x = if a.len() > 0 {
                match as_i64(Some(&a[0])) {
                    Some(n) => n as i32,
                    None => 0,
                }
            } else {
                0
            };
            let y = if a.len() > 1 {
                match as_i64(Some(&a[1])) {
                    Some(n) => n as i32,
                    None => 0,
                }
            } else {
                0
            };
            [x, y]
        },
        _ => [0, 0],
    }
}

/// The string when present, empty otherwise.
fn string_or_empty(o: Option<String>) -> (r: String)
    ensures
        r@ == or_empty(ostr(o)),
{
    match o {
        Some(s) => s,
        None => String::new(),
    }
}

/// Builds a window from a JSON object, tolerating missing or odd fields.
pub fn client_from_value(v: &Json) -> (r: Option<HyprClient>)
    ensures
        match r {
            Some(c) => spec_client(*v) == Some(c@),
            None => spec_client(*v) is None,
        },
{
    let o = Some(v);
    let address = match as_str(get_member(o, "address")) {
        Some(a) => a,
        None => return None,
    };
    let class = string_or_empty(as_str(get_member(o, "class")));
    let title = string_or_empty(as_str(get_member(o, "title")));
    let pid = match as_i64(get_member(o, "pid")) {
        Some(n) => n as i32,
        None => 0,
    };
    let stable_id = match get_member(o, "stableId") {
        Some(x) => Some(text_of(x)),
        None => None,
    };
    let ws = get_member(o, "workspace");
    let ws_id = match as_i64(get_member(ws, "id")) {
        Some(n) => n as i32,
        None => 0,
    };
    let ws_name = string_or_empty(as_str(get_member(ws, "name")));
    let monitor = match as_i64(get_member(o, "monitor")) {
        Some(n) => n as i32,
        None => -1,
    };
    let at = arr2(get_member(o, "at"));
    let size = arr2(get_member(o, "size"));
    Some(
        HyprClient {
            address,
            stable_id,
            class,
            title,
            pid,
            workspace: HyprWorkspace { id: ws_id, name: ws_name },
            monitor,
            at,
            size,
        },
    )
}

/// The windows among the JSON values, those without an address skipped.
pub open spec fn clients_of(items: Seq<Json>) -> Seq<HyprClientView>
    decreases items.len(),
{
    if items.len() == 0 {
        Seq::<HyprClientView>::empty()
    } else {
        let r = clients_of(items.drop_last());
        match spec_client(items.last()) {
            Some(c) => r.push(c),
            None => r,
        }
    }
}

/// The windows in the output of `hyprctl clients -j`: a JSON array of
/// window objects; anything else gives no windows.
pub open spec fn spec_output_clients(out: Option<Vec<u8>>) -> Seq<HyprClientView> {
    match out {
        Some(b) => match json_array(parsed_json(b@)) {
            Some(items) => clients_of(items),
            None => Seq::<HyprClientView>::empty(),
        },
        None => Seq::<HyprClientView>::empty(),
    }
}

/// Reads the window list from the output of `hyprctl clients -j` (`None`
/// when the command could not run or failed).
pub fn parse_clients(out: &Option<Vec<u8>>) -> (r: Vec<HyprClient>)
    ensures
        client_views(r@) == spec_output_clients(*out),
{
    let mut r: Vec<HyprClient> = Vec::new();
    let bytes = match out {
        Some(b) => b,
        None => return r,
    };
    let parsed = parse_json(bytes.as_slice());
    match &parsed {
        Some(Json::Array(items, _)) => {
            let mut i: usize = 0;
            assert(items@.take(0) =~= Seq::<Json>::empty());
            while i < items.len()
                invariant
                    i <= items.len(),
                    client_views(r@) == clients_of(items@.take(i as int)),
                decreases items.len() - i,
            {
                assert(items@.take(i as int + 1).drop_last() =~= items@.take(i as int));
                assert(items@.take(i as int + 1).last() == items@[i as int]);
                match client_from_value(&items[i]) {
                    Some(c) => {
                        r.push(c);
                        assert(client_views(r@) =~= clients_of(items@.take(i as int)).push(
                            r@.last()@,
                        ));
                    },
                    None => {},
                }
                i = i + 1;
            }
            assert(items@.take(items.len() as int) =~= items@);
            r
        },
        _ => r,
    }
}

// ── Windows of one application ──────────────────────────────────────────

/// The windows whose lowercased class is `lower`.
pub open spec fn exact_class(cs: Seq<HyprClientView>, lower: Seq<char>) -> Seq<HyprClientView>
    decreases cs.len(),
{
    if cs.len() == 0 {
        cs
    } else {
        let r = exact_class(cs.drop_last(), lower);
        if lowercase(cs.last().class) == lower {
            r.push(cs.last())
        } else {
            r
        }
    }
}

/// The windows whose lowercased class starts with `lower`.
pub open spec fn prefix_class(cs: Seq<HyprClientView>, lower: Seq<char>) -> Seq<HyprClientView>
    decreases cs.len(),
{
    if cs.len() == 0 {
        cs
    } else {
        let r = prefix_class(cs.drop_last(), lower);
        if has_prefix(lowercase(cs.last().class), lower) {
            r.push(cs.last())
        } else {
            r
        }
    }
}

/// The windows of an application class: those whose class equals it
/// (ignoring case); when there are none and the lowercased class is at least
/// three bytes long, those whose class starts with it ("brave" finds
/// "brave-browser"); otherwise none.
pub open spec fn spec_clients_for_class(class: Seq<char>, cs: Seq<HyprClientView>) -> Seq<HyprClientView> {
    let lower = lowercase(class);
    let exact = exact_class(cs, lower);
    if exact.len() > 0 {
        exact
    } else if encode_utf8(lower).len() as usize >= 3 {
        prefix_class(cs, lower)
    } else {
        Seq::<HyprClientView>::empty()
    }
}

/// A window whose lowercased class is exactly `lower`.
pub open spec fn class_is(lower: Seq<char>) -> spec_fn(HyprClientView) -> bool {
    |c: HyprClientView| lowercase(c.class) == lower
}

/// A window whose lowercased class starts with `lower`.
pub open spec fn class_starts_with(lower: Seq<char>) -> spec_fn(HyprClientView) -> bool {
    |c: HyprClientView| has_prefix(lowercase(c.class), lower)
}

/// The exact matches are the windows of that class, in order.
proof fn lemma_exact_is_filter(cs: Seq<HyprClientView>, lower: Seq<char>)
    ensures
        exact_class(cs, lower) == cs.filter(class_is(lower)),
    decreases cs.len(),
{
    reveal(Seq::filter);
    if cs.len() > 0 {
        lemma_exact_is_filter(cs.drop_last(), lower);
    }
}

/// The prefix matches are the windows whose class starts so, in order.
proof fn lemma_prefix_is_filter(cs: Seq<HyprClientView>, lower: Seq<char>)
    ensures
        prefix_class(cs, lower) == cs.filter(class_starts_with(lower)),
    decreases cs.len(),
{
    reveal(Seq::filter);
    if cs.len() > 0 {
        lemma_prefix_is_filter(cs.drop_last(), lower);
    }
}

/// The windows of a class: when some window's class equals the requested
/// one (ignoring case), exactly the windows of that class, in order, and
/// no window that merely starts with it; otherwise, for a class of at
/// least three bytes, the windows whose class starts with it, in order;
/// otherwise none. Every window found has a class starting with the
/// requested one.
pub proof fn law_exact_class_first(class: Seq<char>, cs: Seq<HyprClientView>)
    ensures
        (exists|i: int| 0 <= i < cs.len() && lowercase(#[trigger] cs[i].class) == lowercase(class))
            ==> spec_clients_for_class(class, cs) == cs.filter(class_is(lowercase(class))),
        (forall|i: int| 0 <= i < cs.len() ==> lowercase(#[trigger] cs[i].class) != lowercase(class))
            ==> spec_clients_for_class(class, cs) == if encode_utf8(lowercase(class)).len() as usize >= 3 {
            cs.filter(class_starts_with(lowercase(class)))
        } else {
            Seq::<HyprClientView>::empty()
        },
        forall|j: int|
            0 <= j < spec_clients_for_class(class, cs).len() ==> has_prefix(
                lowercase(#[trigger] spec_clients_for_class(class, cs)[j].class),
                lowercase(class),
            ),
{
    let lower = lowercase(class);
    lemma_exact_is_filter(cs, lower);
    lemma_prefix_is_filter(cs, lower);
    broadcast use vstd::seq_lib::group_filter_ensures;

    if exists|i: int| 0 <= i < cs.len() && lowercase(#[trigger] cs[i].class) == lower {
        let i = choose|i: int| 0 <= i < cs.len() && lowercase(#[trigger] cs[i].class) == lower;
        assert(class_is(lower)(cs[i]));
        assert(cs.filter(class_is(lower)).contains(cs[i]));
    }
    if forall|i: int| 0 <= i < cs.len() ==> lowercase(#[trigger] cs[i].class) != lower {
        if cs.filter(class_is(lower)).len() > 0 {
            let x = cs.filter(class_is(lower))[0];
            assert(cs.filter(class_is(lower)).contains(x));
            cs.lemma_filter_contains_rev(class_is(lower), x);
        }
    }
    let r = spec_clients_for_class(class, cs);
    assert forall|j: int| 0 <= j < r.len() implies has_prefix(lowercase(#[trigger] r[j].class), lower) by {
        if exact_class(cs, lower).len() > 0 {
            assert(class_is(lower)(r[j]));
            assert(lowercase(r[j].class).take(lower.len() as int) =~= lower);
        } else {
            assert(class_starts_with(lower)(r[j]));
        }
    }
}

/// The windows of an application class among `clients`.
pub fn clients_for_class(clients: &Vec<HyprClient>, class: &str) -> (r: Vec<HyprClient>)
    ensures
        client_views(r@) == spec_clients_for_class(class@, client_views(clients@)),
{
    let lower_s = to_lowercase(class);
    let lower = chars_of(lower_s.as_str());
    let ghost cv = client_views(clients@);
    let mut exact: Vec<HyprClient> = Vec::new();
    let mut prefix: Vec<HyprClient> = Vec::new();
    let mut i: usize = 0;
    assert(cv.take(0) =~= Seq::<HyprClientView>::empty());
    while i < clients.len()
        invariant
            i <= clients.len(),
            cv == client_views(clients@),
            lower@ == lowercase(class@),
            client_views(exact@) == exact_class(cv.take(i as int), lower@),
            client_views(prefix@) == prefix_class(cv.take(i as int), lower@),
        decreases clients.len() - i,
    {
        let c = &clients[i];
        assert(cv.take(i as int + 1).drop_last() =~= cv.take(i as int));
        assert(cv.take(i as int + 1).last() == c@);
        let cl_s = to_lowercase(c.class.as_str());
        let cl = chars_of(cl_s.as_str());
        if chars_eq(&cl, &lower) {
            let ghost before = exact@;
            let d = c.duplicate();
            exact.push(d);
            assert(client_views(exact@) =~= client_views(before).push(d@));
        }
        if starts_with(&cl, &lower) {
            let ghost before = prefix@;
            let d = c.duplicate();
            prefix.push(d);
            assert(client_views(prefix@) =~= client_views(before).push(d@));
        }
        i = i + 1;
    }
    assert(cv.take(clients.len() as int) =~= cv);
    if exact.len() > 0 {
        return exact;
    }
    if lower_s.as_str().len() >= 3 {
        return prefix;
    }
    let none: Vec<HyprClient> = Vec::new();
    assert(client_views(none@) =~= Seq::<HyprClientView>::empty());
    none
}

// ── The Hyprland handle and its memos ───────────────────────────────────

/// How long a fetched window list is reused, in milliseconds.
pub const CLIENT_CACHE_TTL_MS: u64 = 120;

/// Access to Hyprland. It remembers the window list for a short while (a
/// window event should drop it) and `general:gaps_out` for good.
pub struct HyprlandHandler {
    client_cache: Option<(u64, Vec<HyprClient>)>,
    gaps_out: Option<i32>,
}

impl HyprlandHandler {
    /// The remembered window list and when (in ms) it was fetched.
    pub closed spec fn cached_clients(&self) -> Option<(u64, Seq<HyprClientView>)> {
        match self.client_cache {
            Some((t, l)) => Some((t, client_views(l@))),
            None => None,
        }
    }

    /// The remembered `gaps_out`.
    pub closed spec fn cached_gaps_out(&self) -> Option<i32> {
        self.gaps_out
    }

    /// Whether the remembered window list may still be used at `now_ms`.
    pub open spec fn is_fresh(&self, now_ms: u64) -> bool {
        self.cached_clients() matches Some((t, _)) && now_ms < t + CLIENT_CACHE_TTL_MS
    }

    /// A handle that remembers nothing yet.
    pub fn new() -> (h: HyprlandHandler)
        ensures
            h.cached_clients() is None,
            h.cached_gaps_out() is None,
    {
        HyprlandHandler { client_cache: None, gaps_out: None }
    }

    /// All windows. A list fetched less than `CLIENT_CACHE_TTL_MS` before
    /// `now_ms` is reused; otherwise `fetch` runs `hyprctl clients -j` and
    /// its output is read and remembered with `now_ms`.
    pub fn get_clients<F: FnOnce() -> Option<Vec<u8>>>(&mut self, now_ms: u64, fetch: F) -> (r:
        Vec<HyprClient>)
        requires
            call_requires(fetch, ()),
        ensures
            old(self).is_fresh(now_ms) ==> *final(self) == *old(self),
            old(self).is_fresh(now_ms) ==> client_views(r@) == old(self).cached_clients().unwrap().1,
            !old(self).is_fresh(now_ms) ==> exists|out: Option<Vec<u8>>|
                #[trigger] call_ensures(fetch, (), out) && client_views(r@) == spec_output_clients(
                    out,
                ),
            !old(self).is_fresh(now_ms) ==> final(self).cached_clients() == Some(
                (now_ms, client_views(r@)),
            ),
            final(self).cached_gaps_out() == old(self).cached_gaps_out(),
    {
        if let Some((t, list)) = &self.client_cache {
            if (now_ms as u128) < (*t as u128) + (CLIENT_CACHE_TTL_MS as u128) {
                return clone_clients(list);
            }
        }
        let out = fetch();
        let list = parse_clients(&out);
        let copy = clone_clients(&list);
        self.client_cache = Some((now_ms, copy));
        list
    }

    /// The windows of an application class, from the (possibly remembered)
    /// window list.
    pub fn get_clients_for_class<F: FnOnce() -> Option<Vec<u8>>>(
        &mut self,
        class: &str,
        now_ms: u64,
        fetch: F,
    ) -> (r: Vec<HyprClient>)
        requires
            call_requires(fetch, ()),
        ensures
            old(self).is_fresh(now_ms) ==> *final(self) == *old(self),
            !old(self).is_fresh(now_ms) ==> exists|out: Option<Vec<u8>>|
                #[trigger] call_ensures(fetch, (), out) && final(self).cached_clients() == Some(
                    (now_ms, spec_output_clients(out)),
                ),
            final(self).cached_clients() matches Some((_, l)) && client_views(r@)
                == spec_clients_for_class(class@, l),
            final(self).cached_gaps_out() == old(self).cached_gaps_out(),
    {
        let all = self.get_clients(now_ms, fetch);
        clients_for_class(&all, class)
    }

    /// `general:gaps_out`, queried once through `query` (which runs
    /// `hyprctl getoption general:gaps_out -j`) and remembered.
    pub fn get_gaps_out<F: FnOnce() -> Option<Vec<u8>>>(&mut self, query: F) -> (r: i32)
        requires
            call_requires(query, ()),
        ensures
            old(self).cached_gaps_out() matches Some(g) ==> r == g && *final(self) == *old(self),
            old(self).cached_gaps_out() is None ==> exists|out: Option<Vec<u8>>|
                #[trigger] call_ensures(query, (), out) && r == spec_gaps_out(out),
            final(self).cached_gaps_out() == Some(r),
            final(self).cached_clients() == old(self).cached_clients(),
    {
        if let Some(g) = self.gaps_out {
            return g;
        }
        let out = query();
        let value = parse_gaps_out(&out);
        self.gaps_out = Some(value);
        value
    }
}

/// Discard the remembered window list so the next `get_clients` fetches.
/// Call this whenever a window open/close event is received.
pub fn invalidate_client_cache(h: &mut HyprlandHandler)
    ensures
        final(h).cached_clients() is None,
        final(h).cached_gaps_out() == old(h).cached_gaps_out(),
{
    h.client_cache = None;
}

/// A window list remembered at `t` is reused exactly until
/// `t + CLIENT_CACHE_TTL_MS`; with none remembered (as after
/// `invalidate_client_cache`) the next `get_clients` fetches.
pub proof fn law_client_list_lifetime(h: HyprlandHandler, now_ms: u64)
    ensures
        h.cached_clients() matches Some((t, _)) ==> (h.is_fresh(now_ms) <==> now_ms < t
            + CLIENT_CACHE_TTL_MS),
        h.cached_clients() is None ==> !h.is_fresh(now_ms),
{
}

// ── Other queries ───────────────────────────────────────────────────────

/// The first whitespace-separated word of `custom` in the output of
/// `hyprctl getoption general:gaps_out -j`, as an `i32`; 0 on anything
/// unexpected.
pub open spec fn spec_gaps_out(out: Option<Vec<u8>>) -> i32 {
    match out {
        None => 0,
        Some(b) => match json_str(json_get(parsed_json(b@), "custom"@)) {
            None => 0,
            Some(c) => if words(c).len() == 0 {
                0
            } else {
                match spec_parse_i32(words(c)[0]) {
                    Some(v) => v,
                    None => 0,
                }
            },
        },
    }
}

/// Reads `gaps_out` from the output of `hyprctl getoption`.
pub fn parse_gaps_out(out: &Option<Vec<u8>>) -> (r: i32)
    ensures
        r == spec_gaps_out(*out),
{
    let bytes = match out {
        Some(b) => b,
        None => return 0,
    };
    let parsed = parse_json(bytes.as_slice());
    let custom = match as_str(get_member(parsed.as_ref(), "custom")) {
        Some(c) => c,
        None => return 0,
    };
    let ws = split_words(&chars_of(custom.as_str()));
    if ws.len() == 0 {
        return 0;
    }
    match parse_i32(&ws[0]) {
        Some(v) => v,
        None => 0,
    }
}

/// The top-level value of a command's output, when it parses.
pub open spec fn output_json(out: Option<Vec<u8>>) -> Option<Json> {
    match out {
        Some(b) => parsed_json(b@),
        None => None,
    }
}

/// Whether a monitor object is named `name`.
pub open spec fn monitor_named(name: Seq<char>) -> spec_fn(Json) -> bool {
    |m: Json| json_str(json_get(Some(m), "name"@)) == Some(name)
}

/// The Hyprland index of the monitor with connector `name` in the output of
/// `hyprctl monitors -j`: the `id` of the first monitor so named.
pub open spec fn spec_monitor_id(out: Option<Vec<u8>>, name: Seq<char>) -> Option<i32> {
    match json_array(output_json(out)) {
        None => None,
        Some(ms) => match first_index(ms, monitor_named(name)) {
            Some(i) => match json_i64(json_get(Some(ms[i]), "id"@)) {
                Some(id) => Some(id as i32),
                None => None,
            },
            None => None,
        },
    }
}

/// A non-empty string field of the output of `hyprctl activewindow -j`.
pub open spec fn active_field(out: Option<Vec<u8>>, key: Seq<char>) -> Option<Seq<char>> {
    match json_str(json_get(output_json(out), key)) {
        Some(s) => if s.len() > 0 {
            Some(s)
        } else {
            None
        },
        None => None,
    }
}

/// A workspace with its window count.
#[derive(Debug, Clone)]
pub struct HyprWorkspaceInfo {
    pub id: i32,
    pub name: String,
    pub windows: u32,
}

/// The abstract value of a `HyprWorkspaceInfo`.
pub struct HyprWorkspaceInfoView {
    pub id: i32,
    pub name: Seq<char>,
    pub windows: u32,
}

impl View for HyprWorkspaceInfo {
    type V = HyprWorkspaceInfoView;

    open spec fn view(&self) -> HyprWorkspaceInfoView {
        HyprWorkspaceInfoView { id: self.id, name: self.name@, windows: self.windows }
    }
}

/// The abstract values of a list of workspaces.
pub open spec fn ws_views(v: Seq<HyprWorkspaceInfo>) -> Seq<HyprWorkspaceInfoView> {
    v.map_values(|w: HyprWorkspaceInfo| w@)
}

/// The workspace a JSON object describes: `id` is required, `name` falls
/// back to empty, `windows` to 0.
pub open spec fn spec_workspace(v: Json) -> Option<HyprWorkspaceInfoView> {
    match json_i64(json_get(Some(v), "id"@)) {
        None => None,
        Some(id) => Some(
            HyprWorkspaceInfoView {
                id: id as i32,
                name: or_empty(json_str(json_get(Some(v), "name"@))),
                windows: (match json_u64(json_get(Some(v), "windows"@)) {
                    Some(n) => n,
                    None => 0u64,
                }) as u32,
            },
        ),
    }
}

/// The workspaces among the JSON values, in order.
pub open spec fn workspaces_of(items: Seq<Json>) -> Seq<HyprWorkspaceInfoView>
    decreases items.len(),
{
    if items.len() == 0 {
        Seq::<HyprWorkspaceInfoView>::empty()
    } else {
        let r = workspaces_of(items.drop_last());
        match spec_workspace(items.last()) {
            Some(w) => r.push(w),
            None => r,
        }
    }
}

/// Where `w` goes in `s` sorted by id, after every workspace of the same or
/// a lower id.
pub open spec fn insert_pos(s: Seq<HyprWorkspaceInfoView>, id: i32) -> int
    decreases s.len(),
{
    if s.len() == 0 {
        0
    } else if s.last().id <= id {
        s.len() as int
    } else {
        insert_pos(s.drop_last(), id)
    }
}

/// A stable sort by id (`sort_by_key`), built by insertion.
pub open spec fn sort_by_id(s: Seq<HyprWorkspaceInfoView>) -> Seq<HyprWorkspaceInfoView>
    decreases s.len(),
{
    if s.len() == 0 {
        s
    } else {
        let r = sort_by_id(s.drop_last());
        r.insert(insert_pos(r, s.last().id), s.last())
    }
}

/// The workspaces in the output of `hyprctl workspaces -j`, sorted by id.
pub open spec fn spec_workspaces(out: Option<Vec<u8>>) -> Seq<HyprWorkspaceInfoView> {
    match json_array(output_json(out)) {
        Some(items) => sort_by_id(workspaces_of(items)),
        None => Seq::<HyprWorkspaceInfoView>::empty(),
    }
}

/// The id of the active workspace in the output of
/// `hyprctl activeworkspace -j`; 1 on anything unexpected.
pub open spec fn spec_active_workspace_id(out: Option<Vec<u8>>) -> i32 {
    or_i64(json_i64(json_get(output_json(out), "id"@)), 1) as i32
}

/// Where `insert_pos` puts an id in a list sorted by id: after every
/// workspace with the same or a lower id, before every higher one.
proof fn lemma_insert_pos(s: Seq<HyprWorkspaceInfoView>, id: i32)
    requires
        forall|i: int, j: int| 0 <= i < j < s.len() ==> s[i].id <= s[j].id,
    ensures
        0 <= insert_pos(s, id) <= s.len(),
        forall|k: int| 0 <= k < insert_pos(s, id) ==> s[k].id <= id,
        forall|k: int| insert_pos(s, id) <= k < s.len() ==> s[k].id > id,
    decreases s.len(),
{
    if s.len() > 0 {
        let d = s.drop_last();
        if s.last().id > id {
            assert forall|i: int, j: int| 0 <= i < j < d.len() implies d[i].id <= d[j].id by {
                assert(s[i].id <= s[j].id);
            }
            lemma_insert_pos(d, id);
            assert(insert_pos(s, id) == insert_pos(d, id));
            assert forall|k: int| 0 <= k < insert_pos(s, id) implies s[k].id <= id by {
                assert(d[k] == s[k]);
            }
            assert forall|k: int| insert_pos(s, id) <= k < s.len() implies s[k].id > id by {
                if k < d.len() {
                    assert(d[k] == s[k]);
                }
            }
        } else {
            assert forall|k: int| 0 <= k < s.len() implies s[k].id <= id by {
                if k < s.len() - 1 {
                    assert(s[k].id <= s[s.len() - 1].id);
                }
            }
        }
    }
}

/// The workspace list is ordered by id and holds exactly the workspaces
/// it was given (each as often as given).
pub proof fn law_workspaces_sorted_by_id(s: Seq<HyprWorkspaceInfoView>)
    ensures
        sort_by_id(s).len() == s.len(),
        sort_by_id(s).to_multiset() == s.to_multiset(),
        forall|i: int, j: int| 0 <= i < j < sort_by_id(s).len() ==> sort_by_id(s)[i].id <= sort_by_id(s)[j].id,
    decreases s.len(),
{
    broadcast use vstd::seq_lib::group_to_multiset_ensures;

    if s.len() > 0 {
        let d = s.drop_last();
        let x = s.last();
        law_workspaces_sorted_by_id(d);
        let r = sort_by_id(d);
        lemma_insert_pos(r, x.id);
        let p = insert_pos(r, x.id);
        let t = r.insert(p, x);
        assert(d.push(x) =~= s);
        assert(t.to_multiset() == r.to_multiset().insert(x));
        assert forall|i: int, j: int| 0 <= i < j < t.len() implies t[i].id <= t[j].id by {
            if j < p {
                assert(r[i].id <= r[j].id);
            } else if j == p {
                assert(r[i].id <= x.id);
            } else if i < p {
                assert(r[i].id <= r[j - 1].id);
            } else if i == p {
                assert(r[j - 1].id > x.id);
            } else {
                assert(r[i - 1].id <= r[j - 1].id);
            }
        }
    }
}

/// Parses a command's output as one JSON value.
fn parse_output(out: &Option<Vec<u8>>) -> (r: Option<Json>)
    ensures
        r == output_json(*out),
{
    match out {
        Some(b) => parse_json(b.as_slice()),
        None => None,
    }
}

/// Where a workspace with this id goes in the sorted list `s`.
fn find_insert_pos(s: &Vec<HyprWorkspaceInfo>, id: i32) -> (p: usize)
    ensures
        p as int == insert_pos(ws_views(s@), id),
        p <= s.len(),
{
    let mut j: usize = s.len();
    assert(ws_views(s@).take(s.len() as int) =~= ws_views(s@));
    while j > 0 && s[j - 1].id > id
        invariant
            j <= s.len(),
            insert_pos(ws_views(s@), id) == insert_pos(ws_views(s@).take(j as int), id),
        decreases j,
    {
        assert(ws_views(s@).take(j as int).drop_last() =~= ws_views(s@).take(j as int - 1));
        j = j - 1;
    }
    if j > 0 {
        assert(ws_views(s@).take(j as int).last() == s@[j as int - 1]@);
    }
    j
}

impl HyprlandHandler {
    /// Map a Wayland output connector name (e.g. "DP-1") to a Hyprland
    /// monitor index, from the output of `hyprctl monitors -j`.
    pub fn get_monitor_id(&self, output_name: &str, monitors: &Option<Vec<u8>>) -> (r: Option<i32>)
        ensures
            r == spec_monitor_id(*monitors, output_name@),
    {
        let parsed = parse_output(monitors);
        let ms = match &parsed {
            Some(Json::Array(ms, _)) => ms,
            _ => return None,
        };
        let name = chars_of(output_name);
        let ghost p = monitor_named(output_name@);
        let mut i: usize = 0;
        while i < ms.len()
            invariant
                i <= ms.len(),
                name@ == output_name@,
                p == monitor_named(output_name@),
                json_array(output_json(*monitors)) == Some(ms@),
                forall|j: int| 0 <= j < i ==> !p(#[trigger] ms@[j]),
            decreases ms.len() - i,
        {
            let hit = match as_str(get_member(Some(&ms[i]), "name")) {
                Some(n) => chars_eq(&chars_of(n.as_str()), &name),
                None => false,
            };
            assert(hit == p(ms@[i as int]));
            if hit {
                proof {
                    lemma_first_index(ms@, p);
                }
                return match as_i64(get_member(Some(&ms[i]), "id")) {
                    Some(id) => Some(id as i32),
                    None => None,
                };
            }
            i = i + 1;
        }
        proof {
            lemma_first_index(ms@, p);
        }
        None
    }

    /// The class of the focused window, lowercased, from the output of
    /// `hyprctl activewindow -j`; `None` when absent or empty.
    pub fn get_active_class(&self, active: &Option<Vec<u8>>) -> (r: Option<String>)
        ensures
            match r {
                Some(s) => active_field(*active, "class"@) matches Some(c) && s@ == lowercase(c),
                None => active_field(*active, "class"@) is None,
            },
    {
        let parsed = parse_output(active);
        match as_str(get_member(parsed.as_ref(), "class")) {
            Some(c) => if c.as_str().is_empty() {
                None
            } else {
                Some(to_lowercase(c.as_str()))
            },
            None => None,
        }
    }

    /// The address of the focused window (e.g. "0x1234abcd"), from the
    /// output of `hyprctl activewindow -j`; `None` when absent or empty.
    pub fn get_active_address(&self, active: &Option<Vec<u8>>) -> (r: Option<String>)
        ensures
            match r {
                Some(s) => active_field(*active, "address"@) == Some(s@),
                None => active_field(*active, "address"@) is None,
            },
    {
        let parsed = parse_output(active);
        match as_str(get_member(parsed.as_ref(), "address")) {
            Some(c) => if c.as_str().is_empty() {
                None
            } else {
                Some(c)
            },
            None => None,
        }
    }

    /// All open workspaces, sorted by id, from the output of
    /// `hyprctl workspaces -j`.
    pub fn get_workspaces(&self, workspaces: &Option<Vec<u8>>) -> (r: Vec<HyprWorkspaceInfo>)
        ensures
            ws_views(r@) == spec_workspaces(*workspaces),
    {
        let mut r: Vec<HyprWorkspaceInfo> = Vec::new();
        let parsed = parse_output(workspaces);
        let items = match &parsed {
            Some(Json::Array(items, _)) => items,
            _ => {
                assert(ws_views(r@) =~= Seq::<HyprWorkspaceInfoView>::empty());
                return r;
            },
        };
        let mut i: usize = 0;
        assert(items@.take(0) =~= Seq::<Json>::empty());
        assert(ws_views(r@) =~= Seq::<HyprWorkspaceInfoView>::empty());
        while i < items.len()
            invariant
                i <= items.len(),
                json_array(output_json(*workspaces)) == Some(items@),
                ws_views(r@) == sort_by_id(workspaces_of(items@.take(i as int))),
            decreases items.len() - i,
        {
            assert(items@.take(i as int + 1).drop_last() =~= items@.take(i as int));
            assert(items@.take(i as int + 1).last() == items@[i as int]);
            let v = &items[i];
            let o = Some(v);
            if let Some(id) = as_i64(get_member(o, "id")) {
                let name = string_or_empty(as_str(get_member(o, "name")));
                let windows: u64 = match as_u64(get_member(o, "windows")) {
                    Some(n) => n,
                    None => 0,
                };
                let w = HyprWorkspaceInfo { id: id as i32, name, windows: windows as u32 };
                let ghost wv = w@;
                let ghost before = ws_views(r@);
                let pos = find_insert_pos(&r, w.id);
                let ghost rr = r@;
                r.insert(pos, w);
                assert(r@ == rr.insert(pos as int, w));
                assert(ws_views(r@) =~= before.insert(pos as int, wv));
                assert(workspaces_of(items@.take(i as int + 1)) == workspaces_of(
                    items@.take(i as int),
                ).push(wv));
                assert(workspaces_of(items@.take(i as int + 1)).drop_last() =~= workspaces_of(
                    items@.take(i as int),
                ));
            }
            i = i + 1;
        }
        assert(items@.take(items.len() as int) =~= items@);
        r
    }

    /// The id of the active workspace, from the output of
    /// `hyprctl activeworkspace -j`; 1 on anything unexpected.
    pub fn get_active_workspace_id(&self, active: &Option<Vec<u8>>) -> (r: i32)
        ensures
            r == spec_active_workspace_id(*active),
    {
        let parsed = parse_output(active);
        match as_i64(get_member(parsed.as_ref(), "id")) {
            Some(n) => n as i32,
            None => 1,
        }
    }
}

// ── IPC event lines ─────────────────────────────────────────────────────

/// What changed in Hyprland, so the main loop can react cheaply.
#[derive(Debug, Clone)]
pub enum DockEvent {
    /// A window opened, closed or moved — the dock's app list may have changed.
    WindowList,
    /// Focus moved to a window of the given (lowercased) class.
    Focus(String),
    /// Active workspace changed or workspaces were created/destroyed.
    Workspace,
}

/// The abstract value of a `DockEvent`.
pub enum DockEventView {
    WindowList,
    Focus(Seq<char>),
    Workspace,
}

impl View for DockEvent {
    type V = DockEventView;

    open spec fn view(&self) -> DockEventView {
        match self {
            DockEvent::WindowList => DockEventView::WindowList,
            DockEvent::Focus(c) => DockEventView::Focus(c@),
            DockEvent::Workspace => DockEventView::Workspace,
        }
    }
}

/// The prefix of a focus event.
pub open spec fn active_prefix() -> Seq<char> {
    "activewindow>>"@
}

/// The focused class in an `activewindow>>CLASS,TITLE` line: the text up to
/// the first comma, trimmed and lowercased; `None` for any other line.
pub open spec fn spec_active_class(line: Seq<char>) -> Option<Seq<char>> {
    if has_prefix(line, active_prefix()) {
        Some(lowercase(trim(split_seq(line.skip(14), Separator::Char(','))[0])))
    } else {
        None
    }
}

/// Extract the focused window class from an `activewindow>>CLASS,TITLE` event line.
pub fn parse_active_class(line: &str) -> (r: Option<String>)
    ensures
        match r {
            Some(s) => spec_active_class(line@) == Some(s@),
            None => spec_active_class(line@) is None,
        },
{
    let cs = chars_of(line);
    let prefix = chars_of("activewindow>>");
    proof {
        reveal_strlit("activewindow>>");
    }
    if !starts_with(&cs, &prefix) {
        return None;
    }
    let rest = skip_chars(&cs, 14);
    let pieces = split_chars(&rest, Separator::Char(','));
    proof {
        lemma_split_nonempty(rest@, Separator::Char(','));
        assert(views(pieces@)[0] == pieces@[0]@);
    }
    let first = trim_chars(&pieces[0]);
    let s = string_of(&first);
    Some(to_lowercase(s.as_str()))
}

/// Whether `line` starts with the literal `p`.
fn line_starts(cs: &Vec<char>, p: &str) -> (b: bool)
    ensures
        b == has_prefix(cs@, p@),
{
    starts_with(cs, &chars_of(p))
}

/// Whether a line reports a window opening, closing or moving.
pub open spec fn is_window_line(line: Seq<char>) -> bool {
    ||| has_prefix(line, "openwindow>>"@)
    ||| has_prefix(line, "openwindowv2>>"@)
    ||| has_prefix(line, "closewindow>>"@)
    ||| has_prefix(line, "movewindow>>"@)
    ||| has_prefix(line, "movewindowv2>>"@)
}

/// The event an IPC line reports: lines of a window opening, closing or
/// moving change the app list, workspace and monitor-focus lines the
/// workspace bar, focus lines the highlighted app; other lines report
/// nothing.
pub open spec fn spec_classify(line: Seq<char>) -> Option<DockEventView> {
    if is_window_line(line) {
        Some(DockEventView::WindowList)
    } else if has_prefix(line, "workspace>>"@) || has_prefix(line, "createworkspace>>"@)
        || has_prefix(line, "destroyworkspace>>"@) || has_prefix(line, "focusedmon>>"@) {
        Some(DockEventView::Workspace)
    } else {
        match spec_active_class(line) {
            Some(c) => Some(DockEventView::Focus(c)),
            None => None,
        }
    }
}

/// The event reported by one line of the Hyprland event socket.
pub fn classify_event(line: &str) -> (r: Option<DockEvent>)
    ensures
        match r {
            Some(e) => spec_classify(line@) == Some(e@),
            None => spec_classify(line@) is None,
        },
{
    let cs = chars_of(line);
    if line_starts(&cs, "openwindow>>") || line_starts(&cs, "openwindowv2>>") || line_starts(
        &cs,
        "closewindow>>",
    ) || line_starts(&cs, "movewindow>>") || line_starts(&cs, "movewindowv2>>") {
        Some(DockEvent::WindowList)
    } else if line_starts(&cs, "workspace>>") || line_starts(&cs, "createworkspace>>")
        || line_starts(&cs, "destroyworkspace>>") || line_starts(&cs, "focusedmon>>") {
        Some(DockEvent::Workspace)
    } else {
        match parse_active_class(line) {
            Some(c) => Some(DockEvent::Focus(c)),
            None => None,
        }
    }
}

// ── Window screenshots ──────────────────────────────────────────────────

/// `s` with every leading copy of `p` removed (`str::trim_start_matches`).
pub open spec fn strip_all(s: Seq<char>, p: Seq<char>) -> Seq<char>
    decreases s.len(),
{
    if p.len() > 0 && has_prefix(s, p) {
        strip_all(s.skip(p.len() as int), p)
    } else {
        s
    }
}

/// The file a window's preview is captured to.
pub open spec fn spec_temp_path(address: Seq<char>) -> Seq<char> {
    "/tmp/rust-dock-preview-"@ + strip_all(address, "0x"@) + ".png"@
}

/// The region argument of `grim -g`: `X,Y WxH`.
pub open spec fn spec_geometry(at: (i32, i32), size: (i32, i32)) -> Seq<char> {
    int_text(at.0 as int) + ","@ + int_text(at.1 as int) + " "@ + int_text(size.0 as int) + "x"@
        + int_text(size.1 as int)
}

/// The `timeout` arguments common to both captures: 5 s at most, `grim`
/// at scale 0.25, no PNG compression.
pub open spec fn grim_common() -> Seq<Seq<char>> {
    seq!["5"@, "grim"@, "-s"@, "0.25"@, "-l"@, "0"@, "-t"@, "png"@]
}

/// How a window is captured: none when it has no area; otherwise first by
/// its stable id (`grim -T`, when it has a non-empty one), then by its
/// geometry (`grim -g`); each attempt writes `temp_path`.
pub open spec fn spec_capture_attempts(
    address: Seq<char>,
    stable_id: Option<Seq<char>>,
    at: (i32, i32),
    size: (i32, i32),
) -> Option<(Seq<char>, Seq<Seq<Seq<char>>>)> {
    if size.0 <= 0 || size.1 <= 0 {
        None
    } else {
        let temp = spec_temp_path(address);
        let by_geometry = grim_common() + seq!["-g"@, spec_geometry(at, size), temp];
        let attempts = match stable_id {
            Some(sid) => if sid.len() > 0 {
                seq![grim_common() + seq!["-T"@, sid, temp], by_geometry]
            } else {
                seq![by_geometry]
            },
            None => seq![by_geometry],
        };
        Some((temp, attempts))
    }
}

/// The captures to try for one window, each the argument list of a
/// `timeout` command; the first that succeeds has written `temp_path`.
pub struct CapturePlan {
    pub temp_path: String,
    pub attempts: Vec<Vec<String>>,
}

/// The characters of a list of strings.
pub open spec fn strs(v: Seq<String>) -> Seq<Seq<char>> {
    v.map_values(|x: String| x@)
}

/// The characters of a list of argument lists.
pub open spec fn strss(v: Seq<Vec<String>>) -> Seq<Seq<Seq<char>>> {
    v.map_values(|x: Vec<String>| strs(x@))
}

/// The first arguments of each capture.
fn grim_args() -> (r: Vec<String>)
    ensures
        strs(r@) == grim_common(),
{
    let mut r: Vec<String> = Vec::new();
    r.push("5".to_owned());
    r.push("grim".to_owned());
    r.push("-s".to_owned());
    r.push("0.25".to_owned());
    r.push("-l".to_owned());
    r.push("0".to_owned());
    r.push("-t".to_owned());
    r.push("png".to_owned());
    assert(strs(r@) =~= grim_common());
    r
}

/// `s` with every leading copy of `p` removed.
fn strip_all_chars(s: &Vec<char>, p: &Vec<char>) -> (r: Vec<char>)
    ensures
        r@ == strip_all(s@, p@),
    decreases s.len(),
{
    if p.len() > 0 && starts_with(s, p) {
        let rest = skip_chars(s, p.len());
        strip_all_chars(&rest, p)
    } else {
        s.clone()
    }
}

/// Plans the screenshot of a window (see `spec_capture_attempts`).
pub fn capture_plan(address: &str, stable_id: &Option<String>, at: [i32; 2], size: [i32; 2]) -> (r:
    Option<CapturePlan>)
    ensures
        match r {
            Some(p) => spec_capture_attempts(address@, ostr(*stable_id), (at[0], at[1]), (size[0], size[1]))
                == Some((p.temp_path@, strss(p.attempts@))),
            None => spec_capture_attempts(address@, ostr(*stable_id), (at[0], at[1]), (size[0], size[1]))
                is None,
        },
{
    if size[0] <= 0 || size[1] <= 0 {
        return None;
    }
    let mut temp = chars_of("/tmp/rust-dock-preview-");
    append_chars(&mut temp, &strip_all_chars(&chars_of(address), &chars_of("0x")));
    append_chars(&mut temp, &chars_of(".png"));
    let temp_path = string_of(&temp);
    let mut geo = int_chars(at[0] as i64);
    append_chars(&mut geo, &chars_of(","));
    append_chars(&mut geo, &int_chars(at[1] as i64));
    append_chars(&mut geo, &chars_of(" "));
    append_chars(&mut geo, &int_chars(size[0] as i64));
    append_chars(&mut geo, &chars_of("x"));
    append_chars(&mut geo, &int_chars(size[1] as i64));
    let mut by_geometry = grim_args();
    by_geometry.push("-g".to_owned());
    by_geometry.push(string_of(&geo));
    by_geometry.push(temp_path.clone());
    let ghost temp_v = spec_temp_path(address@);
    assert(temp_path@ == temp_v);
    assert(strs(by_geometry@) =~= grim_common() + seq![
        "-g"@,
        spec_geometry((at[0], at[1]), (size[0], size[1])),
        temp_v,
    ]);
    let mut attempts: Vec<Vec<String>> = Vec::new();
    match stable_id {
        Some(sid) => {
            if !sid.as_str().is_empty() {
                let mut by_id = grim_args();
                by_id.push("-T".to_owned());
                by_id.push(sid.clone());
                by_id.push(temp_path.clone());
                assert(strs(by_id@) =~= grim_common() + seq!["-T"@, sid@, temp_v]);
                attempts.push(by_id);
            }
        },
        None => {},
    }
    let ghost before = attempts@;
    attempts.push(by_geometry);
    assert(strss(attempts@) =~= strss(before).push(strs(by_geometry@)));
    Some(CapturePlan { temp_path, attempts })
}

// ── The event socket ────────────────────────────────────────────────────

/// Where Hyprland's event socket may be, in the order tried: under
/// `XDG_RUNTIME_DIR` (or `/tmp` when unset), then under `/tmp`.
pub open spec fn spec_socket_candidates(runtime: Option<Seq<char>>, sig: Seq<char>) -> Seq<Seq<char>> {
    let base = match runtime {
        Some(r) => r,
        None => "/tmp"@,
    };
    seq![base + "/hypr/"@ + sig + "/.socket2.sock"@, "/tmp/hypr/"@ + sig + "/.socket2.sock"@]
}

/// Where Hyprland's event socket may be.
pub fn socket_candidates(runtime: &Option<String>, sig: &str) -> (r: Vec<String>)
    ensures
        strs(r@) == spec_socket_candidates(crate::config::sv(*runtime), sig@),
{
    let base = match runtime {
        Some(b) => chars_of(b.as_str()),
        None => chars_of("/tmp"),
    };
    let mut first = base;
    crate::text::append_chars(&mut first, &chars_of("/hypr/"));
    crate::text::append_chars(&mut first, &chars_of(sig));
    crate::text::append_chars(&mut first, &chars_of("/.socket2.sock"));
    let mut second = chars_of("/tmp/hypr/");
    crate::text::append_chars(&mut second, &chars_of(sig));
    crate::text::append_chars(&mut second, &chars_of("/.socket2.sock"));
    let mut r: Vec<String> = Vec::new();
    r.push(string_of(&first));
    r.push(string_of(&second));
    assert(strs(r@) =~= spec_socket_candidates(crate::config::sv(*runtime), sig@));
    r
}

/// The instance signature in the output of `hyprctl instanceinfo -j`:
/// `None` when the command failed or its output is not JSON, otherwise its
/// `signature` string (empty when there is none).
pub open spec fn spec_instance_signature(out: Option<Vec<u8>>) -> Option<Seq<char>> {
    match output_json(out) {
        None => None,
        Some(v) => Some(or_empty(json_str(json_get(Some(v), "signature"@)))),
    }
}

/// The instance signature in the output of `hyprctl instanceinfo -j`.
pub fn instance_signature(out: &Option<Vec<u8>>) -> (r: Option<String>)
    ensures
        crate::config::sv(r) == spec_instance_signature(*out),
{
    let parsed = parse_output(out);
    match &parsed {
        None => None,
        Some(v) => match as_str(get_member(Some(v), "signature")) {
            Some(sig) => Some(sig),
            None => Some(String::new()),
        },
    }
}

} // verus!
