//! JSON text.
use vstd::prelude::*;

use crate::search;
use crate::text;
use crate::text::lowered_contains;
use crate::text::same_text;

verus! {

/// How one byte of a text stands inside a JSON string.
pub open spec fn json_escape(b: u8) -> Seq<u8> {
    if b == 0x22 || b == 0x5c {
        seq![0x5cu8, b]
    } else if b == 0x08 {
        seq![0x5cu8, 0x62u8]
    } else if b == 0x09 {
        seq![0x5cu8, 0x74u8]
    } else if b == 0x0a {
        seq![0x5cu8, 0x6eu8]
    } else if b == 0x0c {
        seq![0x5cu8, 0x66u8]
    } else if b == 0x0d {
        seq![0x5cu8, 0x72u8]
    } else if b < 0x20 {
        seq![
            0x5cu8,
            0x75u8,
            0x30u8,
            0x30u8,
            crate::crypto::hex_digit(b / 16) as u8,
            crate::crypto::hex_digit(b % 16) as u8,
        ]
    } else {
        seq![b]
    }
}

/// How the bytes of a text stand inside a JSON string.
pub open spec fn json_escaped(data: Seq<u8>) -> Seq<u8>
    decreases data.len(),
{
    if data.len() == 0 {
        Seq::empty()
    } else {
        json_escaped(data.drop_last()) + json_escape(data.last())
    }
}

/// A text as a JSON string, quotes and all.
pub open spec fn json_string(text: Seq<char>) -> Seq<u8> {
    seq![0x22u8] + json_escaped(crate::text::utf8(text)) + seq![0x22u8]
}

/// `serde_json::to_vec` on a text: the quoted text, with quotes, backslashes and control bytes
/// escaped. Writing a text into memory does not fail.
#[verifier::external_body]
pub(crate) fn to_json_string(text: &str) -> (r: Vec<u8>)
    ensures
        r@ == json_string(text@),
{
    serde_json::to_vec(text).unwrap()
}

/// A JSON value, as far as the node looks at it: texts, and objects by their members.
#[derive(Debug)]
pub enum Json {
    Text(String),
    Object(Vec<JsonMember>),
    Other,
}

/// A member of a JSON object.
#[derive(Debug)]
pub struct JsonMember {
    pub name: String,
    pub value: Json,
}

/// What a JSON value says.
pub enum JsonTree {
    Text(Seq<char>),
    Object(Seq<(Seq<char>, JsonTree)>),
    Other,
}

impl View for Json {
    type V = JsonTree;

    open spec fn view(&self) -> JsonTree {
        json_tree(*self)
    }
}

/// What a JSON value says.
pub open spec fn json_tree(v: Json) -> JsonTree
    decreases v,
{
    match v {
        Json::Text(t) => JsonTree::Text(t@),
        Json::Object(members) => JsonTree::Object(
            Seq::new(
                members@.len(),
                |i: int|
                    if 0 <= i < members@.len() {
                        (members@[i].name@, json_tree(members@[i].value))
                    } else {
                        (Seq::empty(), JsonTree::Other)
                    },
            ),
        ),
        Json::Other => JsonTree::Other,
    }
}

#[verifier::external_type_specification]
#[verifier::external_body]
pub struct ExJsonValue(serde_json::Value);

/// What a `serde_json::Value` holds: its text, or its members in the order of the map.
pub uninterp spec fn value_tree(value: serde_json::Value) -> JsonTree;

/// What the JSON value holds that a byte string spells, if it spells one.
pub uninterp spec fn json_of(data: Seq<u8>) -> Option<JsonTree>;

/// `serde_json::from_slice` into a `serde_json::Value`: what a byte string spells, a function of
/// the bytes alone.
#[verifier::external_body]
fn parse_value(data: &[u8]) -> (r: Option<serde_json::Value>)
    ensures
        r is Some == json_of(data@) is Some,
        r matches Some(v) ==> json_of(data@) == Some(value_tree(v)),
{
    serde_json::from_slice(data).ok()
}

/// Takes a `serde_json::Value` apart, with `serde_json::Map::into_iter` for its members.
#[verifier::external_body]
fn from_value(value: serde_json::Value) -> (r: Json)
    ensures
        r@ == value_tree(value),
{
    match value {
        serde_json::Value::String(text) => Json::Text(text),
        serde_json::Value::Object(members) => Json::Object(
            members.into_iter().map(
                |(name, value)| JsonMember { name, value: from_value(value) },
            ).collect(),
        ),
        _ => Json::Other,
    }
}

/// Reads a JSON value.
pub fn parse_json(data: &[u8]) -> (r: Option<Json>)
    ensures
        r is Some == json_of(data@) is Some,
        r matches Some(v) ==> json_of(data@) == Some(v@),
{
    match parse_value(data) {
        Some(v) => Some(from_value(v)),
        None => None,
    }
}

/// The payloads that older nodes still send where only certificates belong.
#[derive(Debug, Clone, Copy, PartialEq, Eq, Structural)]
pub enum PayloadKind {
    BlockValidationResult,
    MempoolSyncMessage,
}

impl PayloadKind {
    /// The name of the payload.
    pub fn name(&self) -> (r: &'static str)
        ensures
            r@ == match self {
                PayloadKind::BlockValidationResult => "BlockValidationResult"@,
                PayloadKind::MempoolSyncMessage => "MempoolSyncMessage"@,
            },
    {
        match self {
            PayloadKind::BlockValidationResult => "BlockValidationResult",
            PayloadKind::MempoolSyncMessage => "MempoolSyncMessage",
        }
    }
}

/// Whether a member has a name.
pub open spec fn is_named(name: Seq<char>) -> spec_fn((Seq<char>, JsonTree)) -> bool {
    |m: (Seq<char>, JsonTree)| m.0 == name
}

/// Where the first member with a name stands.
pub open spec fn member_at(members: Seq<(Seq<char>, JsonTree)>, name: Seq<char>) -> Option<int> {
    search::first_index(members, is_named(name))
}

/// Whether an object has a member with a name.
pub open spec fn has_member(members: Seq<(Seq<char>, JsonTree)>, name: Seq<char>) -> bool {
    member_at(members, name) is Some
}

/// What the words in a text say about the kind of a payload.
pub open spec fn kind_by_word(t: Seq<char>) -> Option<PayloadKind> {
    if text::contains_lowered(t, "mempool"@) {
        Some(PayloadKind::MempoolSyncMessage)
    } else if text::contains_lowered(t, "validation"@) {
        Some(PayloadKind::BlockValidationResult)
    } else {
        None
    }
}

/// What the members of an object by themselves say about its kind.
pub open spec fn kind_by_shape(m: Seq<(Seq<char>, JsonTree)>) -> Option<PayloadKind> {
    if has_member(m, "validation_result"@) && has_member(m, "proposer_group_id"@) && !has_member(
        m,
        "height"@,
    ) {
        Some(PayloadKind::BlockValidationResult)
    } else if has_member(m, "block_hash"@) && (has_member(m, "confirmed_transactions"@)
        || has_member(m, "rejected_transactions"@)) && !has_member(m, "height"@) {
        Some(PayloadKind::MempoolSyncMessage)
    } else {
        None
    }
}

/// What the `type` member of an object says about its kind.
pub open spec fn kind_by_tag(m: Seq<(Seq<char>, JsonTree)>) -> Option<PayloadKind> {
    match member_at(m, "type"@) {
        Some(i) => match m[i].1 {
            JsonTree::Text(t) => kind_by_word(t),
            _ => None,
        },
        None => None,
    }
}

/// The kind of the value of a member, or `fallback` where that value is of no kind.
pub open spec fn kind_of_member(
    m: Seq<(Seq<char>, JsonTree)>,
    name: Seq<char>,
    fallback: Option<PayloadKind>,
) -> Option<PayloadKind>
    decreases m, 0int,
{
    match member_at(m, name) {
        Some(i) => if 0 <= i < m.len() {
            match payload_kind(m[i].1) {
                Some(k) => Some(k),
                None => fallback,
            }
        } else {
            None
        },
        None => None,
    }
}

/// The kind of a payload that does not belong among certificates, if it is one: told by its
/// members, by the name it is wrapped in, by what an envelope holds, by the name of its only
/// member, or by its tag.
pub open spec fn payload_kind(v: JsonTree) -> Option<PayloadKind>
    decreases v, 0int,
{
    match v {
        JsonTree::Object(m) => if kind_by_shape(m) is Some {
            kind_by_shape(m)
        } else if has_member(m, "BlockValidationResult"@) {
            kind_of_member(m, "BlockValidationResult"@, Some(PayloadKind::BlockValidationResult))
        } else if has_member(m, "MempoolSyncMessage"@) {
            kind_of_member(m, "MempoolSyncMessage"@, Some(PayloadKind::MempoolSyncMessage))
        } else if has_member(m, "MempoolSync"@) {
            kind_of_member(m, "MempoolSync"@, Some(PayloadKind::MempoolSyncMessage))
        } else if has_member(m, "MempoolSyncUpdate"@) {
            kind_of_member(m, "MempoolSyncUpdate"@, Some(PayloadKind::MempoolSyncMessage))
        } else if kind_of_member(m, "payload"@, None) is Some {
            kind_of_member(m, "payload"@, None)
        } else if kind_of_member(m, "data"@, None) is Some {
            kind_of_member(m, "data"@, None)
        } else if kind_of_member(m, "message"@, None) is Some {
            kind_of_member(m, "message"@, None)
        } else if kind_of_member(m, "msg"@, None) is Some {
            kind_of_member(m, "msg"@, None)
        } else if m.len() == 1 && payload_kind(m[0].1) is Some {
            payload_kind(m[0].1)
        } else if m.len() == 1 && kind_by_word(m[0].0) is Some {
            kind_by_word(m[0].0)
        } else {
            kind_by_tag(m)
        },
        _ => None,
    }
}


fn find_member(members: &Vec<JsonMember>, name: &str) -> (r: Option<usize>)
    ensures
        match r {
            Some(i) => i < members@.len() && member_at(
                json_tree(Json::Object(*members))->Object_0,
                name@,
            ) == Some(i as int),
            None => member_at(json_tree(Json::Object(*members))->Object_0, name@) is None,
        },
{
    let ghost m = json_tree(Json::Object(*members))->Object_0;
    let mut i: usize = 0;
    while i < members.len()
        invariant
            i <= members@.len(),
            m == json_tree(Json::Object(*members))->Object_0,
            forall|j: int| 0 <= j < i ==> !is_named(name@)(#[trigger] m[j]),
        decreases members@.len() - i,
    {
        if same_text(members[i].name.as_str(), name) {
            proof {
                assert(is_named(name@)(m[i as int]));
                search::first_index_is_first(m, is_named(name@));
            }
            return Some(i);
        }
        assert(m[i as int].0 == members@[i as int].name@);
        i += 1;
    }
    proof {
        search::first_index_is_first(m, is_named(name@));
    }
    None
}

fn object_has(members: &Vec<JsonMember>, name: &str) -> (r: bool)
    ensures
        r == has_member(json_tree(Json::Object(*members))->Object_0, name@),
{
    find_member(members, name).is_some()
}

fn word_kind(t: &str) -> (r: Option<PayloadKind>)
    ensures
        r == kind_by_word(t@),
{
    if lowered_contains(t, "mempool") {
        Some(PayloadKind::MempoolSyncMessage)
    } else if lowered_contains(t, "validation") {
        Some(PayloadKind::BlockValidationResult)
    } else {
        None
    }
}

fn shape_kind(members: &Vec<JsonMember>) -> (r: Option<PayloadKind>)
    ensures
        r == kind_by_shape(json_tree(Json::Object(*members))->Object_0),
{
    if object_has(members, "validation_result") && object_has(members, "proposer_group_id") && !object_has(
        members,
        "height",
    ) {
        Some(PayloadKind::BlockValidationResult)
    } else if object_has(members, "block_hash") && (object_has(members, "confirmed_transactions") || object_has(
        members,
        "rejected_transactions",
    )) && !object_has(members, "height") {
        Some(PayloadKind::MempoolSyncMessage)
    } else {
        None
    }
}

fn tag_kind(members: &Vec<JsonMember>) -> (r: Option<PayloadKind>)
    ensures
        r == kind_by_tag(json_tree(Json::Object(*members))->Object_0),
{
    proof {
        reveal_with_fuel(json_tree, 2);
    }
    match find_member(members, "type") {
        Some(i) => match &members[i].value {
            Json::Text(t) => word_kind(t.as_str()),
            _ => None,
        },
        None => None,
    }
}

fn member_kind(members: &Vec<JsonMember>, name: &str, fallback: Option<PayloadKind>) -> (r: Option<
    PayloadKind,
>)
    ensures
        r == kind_of_member(json_tree(Json::Object(*members))->Object_0, name@, fallback),
    decreases json_tree(Json::Object(*members))->Object_0, 0int,
{
    match find_member(members, name) {
        Some(i) => {
            match detect_non_certificate_payload_kind_value(&members[i].value) {
                Some(k) => Some(k),
                None => fallback,
            }
        },
        None => None,
    }
}

/// The kind of a payload that does not belong among certificates, if it is one.
pub fn detect_non_certificate_payload_kind_value(value: &Json) -> (r: Option<PayloadKind>)
    ensures
        r == payload_kind(value@),
    decreases value@, 0int,
{
    let members = match value {
        Json::Object(members) => members,
        _ => {
            return None;
        },
    };
    let shape = shape_kind(members);
    if shape.is_some() {
        return shape;
    }
    if object_has(members, "BlockValidationResult") {
        return member_kind(
            members,
            "BlockValidationResult",
            Some(PayloadKind::BlockValidationResult),
        );
    }
    if object_has(members, "MempoolSyncMessage") {
        return member_kind(members, "MempoolSyncMessage", Some(PayloadKind::MempoolSyncMessage));
    }
    if object_has(members, "MempoolSync") {
        return member_kind(members, "MempoolSync", Some(PayloadKind::MempoolSyncMessage));
    }
    if object_has(members, "MempoolSyncUpdate") {
        return member_kind(members, "MempoolSyncUpdate", Some(PayloadKind::MempoolSyncMessage));
    }
    let payload = member_kind(members, "payload", None);
    if payload.is_some() {
        return payload;
    }
    let data = member_kind(members, "data", None);
    if data.is_some() {
        return data;
    }
    let message = member_kind(members, "message", None);
    if message.is_some() {
        return message;
    }
    let msg = member_kind(members, "msg", None);
    if msg.is_some() {
        return msg;
    }
    if members.len() == 1 {
        let inner = detect_non_certificate_payload_kind_value(&members[0].value);
        if inner.is_some() {
            return inner;
        }
        let word = word_kind(members[0].name.as_str());
        if word.is_some() {
            return word;
        }
    }
    tag_kind(members)
}

/// The kind of a payload on the topic for certificates that is none, if it is one of those that
/// older nodes still send.
pub fn detect_non_certificate_payload_kind(data: &[u8]) -> (r: Option<PayloadKind>)
    ensures
        r == match json_of(data@) {
            Some(tree) => payload_kind(tree),
            None => None,
        },
{
    match parse_json(data) {
        Some(v) => detect_non_certificate_payload_kind_value(&v),
        None => None,
    }
}

/// Whether a value is a message that only keeps connections alive.
pub open spec fn tagged_keepalive(v: JsonTree) -> bool {
    v matches JsonTree::Object(m) && match member_at(m, "type"@) {
        Some(i) => m[i].1 == JsonTree::Text("mesh_keepalive"@),
        None => false,
    }
}

/// Whether a value is a message that only keeps connections alive.
pub fn is_keepalive_value(value: &Json) -> (r: bool)
    ensures
        r == tagged_keepalive(value@),
{
    proof {
        reveal_with_fuel(json_tree, 2);
    }
    match value {
        Json::Object(members) => match find_member(members, "type") {
            Some(i) => match &members[i].value {
                Json::Text(t) => same_text(t.as_str(), "mesh_keepalive"),
                _ => false,
            },
            None => false,
        },
        _ => false,
    }
}

/// Whether a payload on the topic for votes only keeps connections alive.
pub fn is_mesh_keepalive(data: &[u8]) -> (r: bool)
    ensures
        r == (json_of(data@) matches Some(tree) && tagged_keepalive(tree)),
{
    match parse_json(data) {
        Some(v) => is_keepalive_value(&v),
        None => false,
    }
}

proof fn first_byte_is_escaped_first(data: Seq<u8>)
    requires
        data.len() > 0,
    ensures
        json_escaped(data) == json_escape(data[0]) + json_escaped(data.drop_first()),
    decreases data.len(),
{
    let front = data.drop_last();
    let rest = data.drop_first();
    if data.len() == 1 {
        assert(front.len() == 0 && rest.len() == 0);
        assert(json_escaped(front) =~= Seq::<u8>::empty());
        assert(json_escaped(rest) =~= Seq::<u8>::empty());
        assert(json_escaped(data) =~= json_escape(data[0]) + json_escaped(rest));
    } else {
        first_byte_is_escaped_first(front);
        assert(front.drop_first() =~= rest.drop_last());
        assert(json_escaped(rest) == json_escaped(rest.drop_last()) + json_escape(rest.last()));
        assert(json_escaped(data) =~= json_escape(data[0]) + json_escaped(rest));
    }
}

proof fn escapes_are_told_apart(a: u8, b: u8, x: Seq<u8>, y: Seq<u8>)
    requires
        json_escape(a) + x == json_escape(b) + y,
    ensures
        a == b,
        x == y,
{
    let s = json_escape(a) + x;
    let t = json_escape(b) + y;
    assert(s[0] == json_escape(a)[0] && t[0] == json_escape(b)[0]);
    if json_escape(a).len() > 1 {
        assert(s[1] == json_escape(a)[1]);
    }
    if json_escape(b).len() > 1 {
        assert(t[1] == json_escape(b)[1]);
    }
    if json_escape(a).len() == 6 && json_escape(b).len() == 6 {
        assert(s[4] == json_escape(a)[4] && t[4] == json_escape(b)[4]);
        assert(s[5] == json_escape(a)[5] && t[5] == json_escape(b)[5]);
    }
    assert(a == b);
    let n = json_escape(a).len() as int;
    assert(s.skip(n) =~= x);
    assert(t.skip(n) =~= y);
}

proof fn escaped_bytes_are_told_apart(a: Seq<u8>, b: Seq<u8>)
    requires
        json_escaped(a) == json_escaped(b),
    ensures
        a == b,
    decreases a.len(),
{
    if a.len() > 0 {
        first_byte_is_escaped_first(a);
    }
    if b.len() > 0 {
        first_byte_is_escaped_first(b);
    }
    if a.len() == 0 || b.len() == 0 {
        assert(a =~= b);
    } else {
        escapes_are_told_apart(
            a[0],
            b[0],
            json_escaped(a.drop_first()),
            json_escaped(b.drop_first()),
        );
        escaped_bytes_are_told_apart(a.drop_first(), b.drop_first());
        assert(a =~= seq![a[0]] + a.drop_first());
        assert(b =~= seq![b[0]] + b.drop_first());
    }
}

/// Texts that are written alike in JSON are the same.
pub proof fn json_texts_are_told_apart(a: Seq<char>, b: Seq<char>)
    requires
        json_string(a) == json_string(b),
    ensures
        a == b,
{
    let x = json_escaped(crate::text::utf8(a));
    let y = json_escaped(crate::text::utf8(b));
    assert(x =~= json_string(a).subrange(1, json_string(a).len() - 1));
    assert(y =~= json_string(b).subrange(1, json_string(b).len() - 1));
    escaped_bytes_are_told_apart(crate::text::utf8(a), crate::text::utf8(b));
    crate::text::utf8_injective(a, b);
}

/// In JSON a text stands between quotes. No quote, and no control character, stands in it, and a
/// byte that needs no escape stands for itself.
pub proof fn json_texts_stand_between_quotes(t: Seq<char>, b: u8)
    ensures
        json_string(t).len() >= 2,
        json_string(t)[0] == 0x22,
        json_string(t).last() == 0x22,
        b >= 0x20 && b != 0x22 && b != 0x5c ==> json_escape(b) == seq![b],
        forall|i: int|
            0 <= i < json_escape(b).len() ==> #[trigger] json_escape(b)[i] >= 0x20 && (json_escape(
                b,
            )[i] == 0x22 ==> i == 1 && json_escape(b)[0] == 0x5c),
{
}

/// An object has a member exactly if one of its members has the name.
pub proof fn members_are_found_by_name(m: Seq<(Seq<char>, JsonTree)>, name: Seq<char>)
    ensures
        has_member(m, name) <==> exists|i: int| 0 <= i < m.len() && (#[trigger] m[i]).0 == name,
{
    search::first_index_is_first(m, is_named(name));
    match member_at(m, name) {
        Some(i) => {
            assert(is_named(name)(m[i]));
            assert(m[i].0 == name);
        },
        None => {
            assert forall|i: int| 0 <= i < m.len() implies (#[trigger] m[i]).0 != name by {
                assert(!is_named(name)(m[i]));
            }
        },
    }
}

/// A validation result is known by its members, whatever else it holds and whatever it is in; so
/// is the news of transactions. What has a height is a block, and is neither by its members.
pub proof fn payloads_are_known_by_their_members(m: Seq<(Seq<char>, JsonTree)>)
    ensures
        has_member(m, "validation_result"@) && has_member(m, "proposer_group_id"@) && !has_member(
            m,
            "height"@,
        ) ==> payload_kind(JsonTree::Object(m)) == Some(PayloadKind::BlockValidationResult),
        has_member(m, "block_hash"@) && has_member(m, "confirmed_transactions"@) && !has_member(
            m,
            "height"@,
        ) && !has_member(m, "validation_result"@) ==> payload_kind(JsonTree::Object(m)) == Some(
            PayloadKind::MempoolSyncMessage,
        ),
        has_member(m, "block_hash"@) && has_member(m, "rejected_transactions"@) && !has_member(
            m,
            "height"@,
        ) && !has_member(m, "validation_result"@) ==> payload_kind(JsonTree::Object(m)) == Some(
            PayloadKind::MempoolSyncMessage,
        ),
        has_member(m, "height"@) ==> kind_by_shape(m) is None,
        payload_kind(JsonTree::Other) is None,
        forall|t: Seq<char>| (#[trigger] payload_kind(JsonTree::Text(t))) is None,
{
}

/// What stands in a member that is named after a kind is of that kind, unless it says itself that
/// it is of another. `i` is the place of the first member with that name.
pub proof fn payloads_are_known_by_what_they_stand_in(
    m: Seq<(Seq<char>, JsonTree)>,
    i: int,
    fallback: PayloadKind,
)
    requires
        0 <= i < m.len(),
        kind_by_shape(m) is None,
        forall|j: int| 0 <= j < i ==> (#[trigger] m[j]).0 != m[i].0,
        m[i].0 == "BlockValidationResult"@ && fallback is BlockValidationResult || (m[i].0
            == "MempoolSyncMessage"@ && !has_member(m, "BlockValidationResult"@)
            && fallback is MempoolSyncMessage),
    ensures
        payload_kind(m[i].1) is Some ==> payload_kind(JsonTree::Object(m)) == payload_kind(m[i].1),
        payload_kind(m[i].1) is None ==> payload_kind(JsonTree::Object(m)) == Some(fallback),
{
    reveal_with_fuel(payload_kind, 3);
    reveal_with_fuel(kind_of_member, 3);
    search::first_index_is(m, is_named(m[i].0), i);
    assert(member_at(m, m[i].0) == Some(i));
    assert(has_member(m, m[i].0));
}

/// A message keeps the mesh alive exactly if it is an object whose type says so; what its other
/// members say does not count.
pub proof fn keepalives_say_so(m: Seq<(Seq<char>, JsonTree)>, i: int)
    ensures
        !tagged_keepalive(JsonTree::Other),
        forall|t: Seq<char>| !(#[trigger] tagged_keepalive(JsonTree::Text(t))),
        (forall|j: int| 0 <= j < m.len() ==> (#[trigger] m[j]).0 != "type"@) ==> !tagged_keepalive(
            JsonTree::Object(m),
        ),
        0 <= i < m.len() && m[i].0 == "type"@ && (forall|j: int|
            0 <= j < i ==> (#[trigger] m[j]).0 != "type"@) ==> (tagged_keepalive(
            JsonTree::Object(m),
        ) <==> m[i].1 == JsonTree::Text("mesh_keepalive"@)),
{
    members_are_found_by_name(m, "type"@);
    if 0 <= i < m.len() && m[i].0 == "type"@ && (forall|j: int|
        0 <= j < i ==> (#[trigger] m[j]).0 != "type"@) {
        search::first_index_is(m, is_named("type"@), i);
    }
}

/// A payload that is known by nothing else is known by the word in its type: one that speaks of
/// the mempool before one that speaks of a validation. `i` is the place of its type.
pub proof fn payloads_are_known_by_their_type(
    m: Seq<(Seq<char>, JsonTree)>,
    i: int,
    t: Seq<char>,
)
    requires
        0 <= i < m.len(),
        m[i].0 == "type"@,
        m[i].1 == JsonTree::Text(t),
        forall|j: int| 0 <= j < i ==> (#[trigger] m[j]).0 != "type"@,
    ensures
        text::contains_lowered(t, "mempool"@) ==> kind_by_tag(m) == Some(
            PayloadKind::MempoolSyncMessage,
        ),
        !text::contains_lowered(t, "mempool"@) && text::contains_lowered(t, "validation"@)
            ==> kind_by_tag(m) == Some(PayloadKind::BlockValidationResult),
        !text::contains_lowered(t, "mempool"@) && !text::contains_lowered(t, "validation"@)
            ==> kind_by_tag(m) is None,
{
    search::first_index_is(m, is_named("type"@), i);
}

} // verus!
