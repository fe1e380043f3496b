//! AMWA NMOS: the registry entries found through DNS-SD, the IS-04 Query
//! API resources (nodes, devices, senders, receivers) as the desk lists
//! them, and IS-05 connection requests.
use vstd::prelude::*;
use crate::net::{Ipv4Address, ipv4_chars, ipv4_text};
use crate::text::{
    Separator, append_chars, append_str, chars_eq, contains_chars, contains_seq, decimal,
    decimal_chars, from_chars, lemma_split_by_nonempty, split_by, split_chars, text_le,
    text_le_chars, to_chars, trim, trim_chars, views, lemma_text_le_total, lemma_text_le_transitive,
};

verus! {

/// A JSON value as far as the desk reads it: texts, arrays and objects
/// (members in document order, names unique); numbers, booleans and null
/// are all `Other`.
pub enum JsonValue {
    Text(String),
    Array(Vec<JsonValue>),
    Object(Vec<(String, JsonValue)>),
    Other,
}

/// The position of the member called `key`.
pub open spec fn member_index(members: Seq<(String, JsonValue)>, key: Seq<char>) -> Option<int>
    decreases members.len(),
{
    if members.len() == 0 {
        None
    } else if members[0].0@ == key {
        Some(0)
    } else {
        match member_index(members.drop_first(), key) {
            Some(k) => Some(k + 1),
            None => None,
        }
    }
}

/// The member of an object called `key` (`Value::get`); none for other values.
pub open spec fn member(v: JsonValue, key: Seq<char>) -> Option<JsonValue> {
    match v {
        JsonValue::Object(members) => match member_index(members@, key) {
            Some(k) => Some(members@[k].1),
            None => None,
        },
        _ => None,
    }
}

/// The text of the member `key`, or the empty text when there is no such
/// member or it is not a text.
pub open spec fn member_text(v: JsonValue, key: Seq<char>) -> Seq<char> {
    match member(v, key) {
        Some(JsonValue::Text(s)) => s@,
        _ => Seq::empty(),
    }
}

proof fn lemma_member_index_range(members: Seq<(String, JsonValue)>, key: Seq<char>)
    ensures
        member_index(members, key) matches Some(k) ==> 0 <= k < members.len() && members[k].0@ == key,
    decreases members.len(),
{
    if members.len() > 0 && members[0].0@ != key {
        lemma_member_index_range(members.drop_first(), key);
    }
}

fn find_member<'a>(v: &'a JsonValue, key: &str) -> (r: Option<&'a JsonValue>)
    ensures
        match member(*v, key@) {
            Some(m) => r matches Some(x) && *x == m,
            None => r is None,
        },
{
    match v {
        JsonValue::Object(members) => {
            let k = to_chars(key);
            let n = members.len();
            let mut i: usize = 0;
            assert(members@.skip(0) == members@);
            while i < n
                invariant
                    n == members@.len(),
                    i <= n,
                    k@ == key@,
                    *v == JsonValue::Object(*members),
                    member_index(members@, key@) == (match member_index(members@.skip(i as int), key@) {
                        Some(j) => Some(j + i),
                        None => None,
                    }),
                decreases n - i,
            {
                assert(members@.skip(i as int).drop_first() == members@.skip(i + 1));
                assert(members@.skip(i as int)[0] == members@[i as int]);
                if chars_eq(to_chars(members[i].0.as_str()).as_slice(), k.as_slice()) {
                    assert(member_index(members@.skip(i as int), key@) == Some(0int));
                    assert(member_index(members@, key@) == Some(i as int));
                    return Some(&members[i].1);
                }
                i = i + 1;
            }
            None
        },
        _ => None,
    }
}

/// The text of the member `key` of a JSON value, or the empty text.
pub fn string(value: &JsonValue, key: &str) -> (r: String)
    ensures
        r@ == member_text(*value, key@),
{
    match find_member(value, key) {
        Some(JsonValue::Text(s)) => s.clone(),
        _ => String::new(),
    }
}

/// A node as the Query API lists it.
pub struct NmosNode {
    pub id: String,
    pub label: String,
    pub hostname: String,
    pub description: String,
}

/// A device, with the IS-05 connection API that its controls name.
pub struct NmosDevice {
    pub id: String,
    pub node_id: String,
    pub label: String,
    pub description: String,
    pub connection_api: String,
}

/// A sender as the Query API lists it.
pub struct NmosSender {
    pub id: String,
    pub device_id: String,
    pub flow_id: String,
    pub label: String,
    pub description: String,
    pub transport: String,
    pub manifest_href: String,
}

/// A receiver, with the sender it is subscribed to and the connection API
/// of its device.
pub struct NmosReceiver {
    pub id: String,
    pub device_id: String,
    pub label: String,
    pub description: String,
    pub transport: String,
    pub format: String,
    pub subscribed_sender_id: String,
    pub connection_api: String,
}

/// Everything listed by one registry.
pub struct NmosResources {
    pub registry_url: String,
    pub nodes: Vec<NmosNode>,
    pub devices: Vec<NmosDevice>,
    pub senders: Vec<NmosSender>,
    pub receivers: Vec<NmosReceiver>,
}

/// A registry found through DNS-SD.
pub struct NmosRegistry {
    pub name: String,
    pub hostname: String,
    pub url: String,
    pub api_version: String,
    pub priority: String,
}

pub open spec fn node_of(n: NmosNode, v: JsonValue) -> bool {
    &&& n.id@ == member_text(v, "id"@)
    &&& n.label@ == member_text(v, "label"@)
    &&& n.hostname@ == member_text(v, "hostname"@)
    &&& n.description@ == member_text(v, "description"@)
}

/// Whether a control of a device points to its IS-05 connection API: its
/// type mentions `sr-ctrl` or its link `/connection/`.
pub open spec fn connection_control(c: JsonValue) -> bool {
    contains_seq(member_text(c, "type"@), "sr-ctrl"@) || contains_seq(
        member_text(c, "href"@),
        "/connection/"@,
    )
}

/// The first connection control among `cs`.
pub open spec fn first_connection_control(cs: Seq<JsonValue>) -> Option<int>
    decreases cs.len(),
{
    if cs.len() == 0 {
        None
    } else if connection_control(cs[0]) {
        Some(0)
    } else {
        match first_connection_control(cs.drop_first()) {
            Some(k) => Some(k + 1),
            None => None,
        }
    }
}

/// The IS-05 connection API of a device: the link of its first connection
/// control, or the empty text.
pub open spec fn connection_api_of(device: JsonValue) -> Seq<char> {
    match member(device, "controls"@) {
        Some(JsonValue::Array(cs)) => match first_connection_control(cs@) {
            Some(k) => member_text(cs@[k], "href"@),
            None => Seq::empty(),
        },
        _ => Seq::empty(),
    }
}

pub open spec fn device_of(d: NmosDevice, v: JsonValue) -> bool {
    &&& d.id@ == member_text(v, "id"@)
    &&& d.node_id@ == member_text(v, "node_id"@)
    &&& d.label@ == member_text(v, "label"@)
    &&& d.description@ == member_text(v, "description"@)
    &&& d.connection_api@ == connection_api_of(v)
}

pub open spec fn sender_of(s: NmosSender, v: JsonValue) -> bool {
    &&& s.id@ == member_text(v, "id"@)
    &&& s.device_id@ == member_text(v, "device_id"@)
    &&& s.flow_id@ == member_text(v, "flow_id"@)
    &&& s.label@ == member_text(v, "label"@)
    &&& s.description@ == member_text(v, "description"@)
    &&& s.transport@ == member_text(v, "transport"@)
    &&& s.manifest_href@ == member_text(v, "manifest_href"@)
}

/// The sender that a receiver is subscribed to, or the empty text.
pub open spec fn subscribed_sender(v: JsonValue) -> Seq<char> {
    match member(v, "subscription"@) {
        Some(sub) => member_text(sub, "sender_id"@),
        None => Seq::empty(),
    }
}

/// The connection API of the device called `id`: the last device listed
/// with that identifier counts; the empty text when there is none.
pub open spec fn device_connection_api(devices: Seq<JsonValue>, id: Seq<char>) -> Seq<char>
    decreases devices.len(),
{
    if devices.len() == 0 {
        Seq::empty()
    } else if member_text(devices.last(), "id"@) == id {
        connection_api_of(devices.last())
    } else {
        device_connection_api(devices.drop_last(), id)
    }
}

pub open spec fn receiver_of(r: NmosReceiver, v: JsonValue, devices: Seq<JsonValue>) -> bool {
    &&& r.id@ == member_text(v, "id"@)
    &&& r.device_id@ == member_text(v, "device_id"@)
    &&& r.label@ == member_text(v, "label"@)
    &&& r.description@ == member_text(v, "description"@)
    &&& r.transport@ == member_text(v, "transport"@)
    &&& r.format@ == member_text(v, "format"@)
    &&& r.subscribed_sender_id@ == subscribed_sender(v)
    &&& r.connection_api@ == device_connection_api(devices, member_text(v, "device_id"@))
}

/// A node read from its Query API entry.
pub fn node_from(value: &JsonValue) -> (r: NmosNode)
    ensures
        node_of(r, *value),
{
    NmosNode {
        id: string(value, "id"),
        label: string(value, "label"),
        hostname: string(value, "hostname"),
        description: string(value, "description"),
    }
}

/// The IS-05 connection API that a device's controls name.
pub fn connection_api(device: &JsonValue) -> (r: String)
    ensures
        r@ == connection_api_of(*device),
{
    match find_member(device, "controls") {
        Some(JsonValue::Array(cs)) => {
            let n = cs.len();
            let mut i: usize = 0;
            assert(cs@.skip(0) == cs@);
            let sr = to_chars("sr-ctrl");
            let conn = to_chars("/connection/");
            while i < n
                invariant
                    n == cs@.len(),
                    i <= n,
                    sr@ == "sr-ctrl"@,
                    conn@ == "/connection/"@,
                    member(*device, "controls"@) == Some(JsonValue::Array(*cs)),
                    first_connection_control(cs@) == (match first_connection_control(cs@.skip(i as int)) {
                        Some(j) => Some(j + i),
                        None => None,
                    }),
                decreases n - i,
            {
                assert(cs@.skip(i as int).drop_first() == cs@.skip(i + 1));
                assert(cs@.skip(i as int)[0] == cs@[i as int]);
                let kind = to_chars(string(&cs[i], "type").as_str());
                let href = string(&cs[i], "href");
                let hchars = to_chars(href.as_str());
                if contains_chars(kind.as_slice(), sr.as_slice()) || contains_chars(hchars.as_slice(), conn.as_slice()) {
                    assert(first_connection_control(cs@) == Some(i as int));
                    return href;
                }
                i = i + 1;
            }
            String::new()
        },
        _ => String::new(),
    }
}

/// A device read from its Query API entry.
pub fn device_from(value: &JsonValue) -> (r: NmosDevice)
    ensures
        device_of(r, *value),
{
    NmosDevice {
        id: string(value, "id"),
        node_id: string(value, "node_id"),
        label: string(value, "label"),
        description: string(value, "description"),
        connection_api: connection_api(value),
    }
}

/// A sender read from its Query API entry.
pub fn sender_from(value: &JsonValue) -> (r: NmosSender)
    ensures
        sender_of(r, *value),
{
    NmosSender {
        id: string(value, "id"),
        device_id: string(value, "device_id"),
        flow_id: string(value, "flow_id"),
        label: string(value, "label"),
        description: string(value, "description"),
        transport: string(value, "transport"),
        manifest_href: string(value, "manifest_href"),
    }
}

/// The connection API of the device called `id` among devices already read.
fn find_connection_api(devices: &Vec<NmosDevice>, id: &str, Ghost(values): Ghost<Seq<JsonValue>>) -> (r: String)
    requires
        devices@.len() == values.len(),
        forall|i: int| 0 <= i < values.len() ==> device_of(#[trigger] devices@[i], values[i]),
    ensures
        r@ == device_connection_api(values, id@),
{
    let key = to_chars(id);
    let mut i: usize = devices.len();
    assert(values.take(values.len() as int) == values);
    while i > 0
        invariant
            i <= devices@.len(),
            devices@.len() == values.len(),
            key@ == id@,
            forall|j: int| 0 <= j < values.len() ==> device_of(#[trigger] devices@[j], values[j]),
            device_connection_api(values, id@) == device_connection_api(values.take(i as int), id@),
        decreases i,
    {
        let ghost t = values.take(i as int);
        assert(t.last() == values[i - 1]);
        assert(t.drop_last() == values.take(i - 1));
        assert(device_of(devices@[i - 1], values[i - 1]));
        if chars_eq(to_chars(devices[i - 1].id.as_str()).as_slice(), key.as_slice()) {
            return devices[i - 1].connection_api.clone();
        }
        i = i - 1;
    }
    String::new()
}

/// A receiver read from its Query API entry, given the devices read before.
fn receiver_from(value: &JsonValue, devices: &Vec<NmosDevice>, Ghost(values): Ghost<Seq<JsonValue>>) -> (r: NmosReceiver)
    requires
        devices@.len() == values.len(),
        forall|i: int| 0 <= i < values.len() ==> device_of(#[trigger] devices@[i], values[i]),
    ensures
        receiver_of(r, *value, values),
{
    let device_id = string(value, "device_id");
    let subscribed_sender_id = match find_member(value, "subscription") {
        Some(sub) => string(sub, "sender_id"),
        None => String::new(),
    };
    let connection_api = find_connection_api(devices, device_id.as_str(), Ghost(values));
    NmosReceiver {
        id: string(value, "id"),
        device_id,
        label: string(value, "label"),
        description: string(value, "description"),
        transport: string(value, "transport"),
        format: string(value, "format"),
        subscribed_sender_id,
        connection_api,
    }
}

/// Lists what a registry's Query API returned: every node, device, sender
/// and receiver in the order given, each receiver with the connection API
/// of its device.
pub fn build_resources(
    registry_url: String,
    nodes: &Vec<JsonValue>,
    devices: &Vec<JsonValue>,
    senders: &Vec<JsonValue>,
    receivers: &Vec<JsonValue>,
) -> (r: NmosResources)
    ensures
        r.registry_url@ == registry_url@,
        r.nodes@.len() == nodes@.len(),
        forall|i: int| 0 <= i < nodes@.len() ==> node_of(#[trigger] r.nodes@[i], nodes@[i]),
        r.devices@.len() == devices@.len(),
        forall|i: int| 0 <= i < devices@.len() ==> device_of(#[trigger] r.devices@[i], devices@[i]),
        r.senders@.len() == senders@.len(),
        forall|i: int| 0 <= i < senders@.len() ==> sender_of(#[trigger] r.senders@[i], senders@[i]),
        r.receivers@.len() == receivers@.len(),
        forall|i: int|
            0 <= i < receivers@.len() ==> receiver_of(#[trigger] r.receivers@[i], receivers@[i], devices@),
{
    let mut node_list: Vec<NmosNode> = Vec::new();
    for i in 0..nodes.len()
        invariant
            node_list@.len() == i,
            forall|j: int| 0 <= j < i ==> node_of(#[trigger] node_list@[j], nodes@[j]),
    {
        node_list.push(node_from(&nodes[i]));
    }
    let mut device_list: Vec<NmosDevice> = Vec::new();
    for i in 0..devices.len()
        invariant
            device_list@.len() == i,
            forall|j: int| 0 <= j < i ==> device_of(#[trigger] device_list@[j], devices@[j]),
    {
        device_list.push(device_from(&devices[i]));
    }
    let mut sender_list: Vec<NmosSender> = Vec::new();
    for i in 0..senders.len()
        invariant
            sender_list@.len() == i,
            forall|j: int| 0 <= j < i ==> sender_of(#[trigger] sender_list@[j], senders@[j]),
    {
        sender_list.push(sender_from(&senders[i]));
    }
    let mut receiver_list: Vec<NmosReceiver> = Vec::new();
    for i in 0..receivers.len()
        invariant
            receiver_list@.len() == i,
            device_list@.len() == devices@.len(),
            forall|j: int| 0 <= j < devices@.len() ==> device_of(#[trigger] device_list@[j], devices@[j]),
            forall|j: int| 0 <= j < i ==> receiver_of(#[trigger] receiver_list@[j], receivers@[j], devices@),
    {
        receiver_list.push(receiver_from(&receivers[i], &device_list, Ghost(devices@)));
    }
    NmosResources {
        registry_url,
        nodes: node_list,
        devices: device_list,
        senders: sender_list,
        receivers: receiver_list,
    }
}

/// `s` without the character `c` repeated at its end (`trim_end_matches(c)`).
pub open spec fn trim_end_char(s: Seq<char>, c: char) -> Seq<char>
    decreases s.len(),
{
    if s.len() > 0 && s.last() == c {
        trim_end_char(s.drop_last(), c)
    } else {
        s
    }
}

/// Whether `s` ends with `p`.
pub open spec fn has_suffix(s: Seq<char>, p: Seq<char>) -> bool {
    p.len() <= s.len() && s.skip(s.len() - p.len()) == p
}

/// `s` without the non-empty text `p` repeated at its end
/// (`trim_end_matches(p)`).
pub open spec fn trim_end_text(s: Seq<char>, p: Seq<char>) -> Seq<char>
    decreases s.len(),
{
    if p.len() > 0 && has_suffix(s, p) {
        trim_end_text(s.take(s.len() - p.len()), p)
    } else {
        s
    }
}

fn trim_end_char_chars(s: &[char], c: char) -> (r: Vec<char>)
    ensures
        r@ == trim_end_char(s@, c),
{
    let mut j: usize = s.len();
    assert(s@.take(j as int) == s@);
    while j > 0 && s[j - 1] == c
        invariant
            j <= s@.len(),
            trim_end_char(s@, c) == trim_end_char(s@.take(j as int), c),
        decreases j,
    {
        assert(s@.take(j as int).drop_last() == s@.take(j - 1));
        j = j - 1;
    }
    vstd::slice::slice_to_vec(vstd::slice::slice_subrange(s, 0, j))
}

fn ends_with_chars(s: &[char], p: &[char]) -> (r: bool)
    ensures
        r == has_suffix(s@, p@),
{
    if p.len() > s.len() {
        return false;
    }
    let tail = vstd::slice::slice_subrange(s, s.len() - p.len(), s.len());
    assert(tail@ == s@.skip(s@.len() - p@.len()));
    chars_eq(tail, p)
}

fn trim_end_text_chars(s: &[char], p: &[char]) -> (r: Vec<char>)
    requires
        p@.len() > 0,
    ensures
        r@ == trim_end_text(s@, p@),
{
    let mut j: usize = s.len();
    assert(s@.take(j as int) == s@);
    while j >= p.len() && ends_with_chars(vstd::slice::slice_subrange(s, 0, j), p)
        invariant
            j <= s@.len(),
            p@.len() > 0,
            trim_end_text(s@, p@) == trim_end_text(s@.take(j as int), p@),
        decreases j,
    {
        assert(s@.take(j as int).take(j - p@.len()) == s@.take(j - p@.len()));
        j = j - p.len();
    }
    vstd::slice::slice_to_vec(vstd::slice::slice_subrange(s, 0, j))
}

/// What to do with the registry address that a user typed.
pub enum QueryUrlPlan {
    /// It already names a Query API version: use it as it is.
    Ready(String),
    /// Try these Query API versions, newest first, and use the first that answers.
    Probe(Vec<String>),
}

/// The registry address without surrounding whitespace and trailing slashes.
pub open spec fn cleaned_url(input: Seq<char>) -> Seq<char> {
    trim_end_char(trim(input), '/')
}

/// The root of a registry address, without the Query API path.
pub open spec fn url_root(input: Seq<char>) -> Seq<char> {
    trim_end_char(trim_end_text(cleaned_url(input), "/x-nmos/query"@), '/')
}

/// How a registry address is turned into Query API base URLs.
pub fn query_url_plan(input: &str) -> (r: QueryUrlPlan)
    ensures
        contains_seq(cleaned_url(input@), "/x-nmos/query/v1."@) ==> (r matches QueryUrlPlan::Ready(u)
            && u@ == cleaned_url(input@)),
        !contains_seq(cleaned_url(input@), "/x-nmos/query/v1."@) ==> (r matches QueryUrlPlan::Probe(
            c,
        ) && c@.len() == 4 && c@[0]@ == url_root(input@) + "/x-nmos/query/v1.3"@ && c@[1]@
            == url_root(input@) + "/x-nmos/query/v1.2"@ && c@[2]@ == url_root(input@)
            + "/x-nmos/query/v1.1"@ && c@[3]@ == url_root(input@) + "/x-nmos/query/v1.0"@),
{
    let trimmed = trim_chars(to_chars(input).as_slice());
    let cleaned = trim_end_char_chars(trimmed.as_slice(), '/');
    if contains_chars(cleaned.as_slice(), to_chars("/x-nmos/query/v1.").as_slice()) {
        return QueryUrlPlan::Ready(from_chars(cleaned.as_slice()));
    }
    let suffix = to_chars("/x-nmos/query");
    proof {
        reveal_strlit("/x-nmos/query");
    }
    let stripped = trim_end_text_chars(cleaned.as_slice(), suffix.as_slice());
    let root = trim_end_char_chars(stripped.as_slice(), '/');
    let mut candidates: Vec<String> = Vec::new();
    let mut c3 = root.clone();
    append_str(&mut c3, "/x-nmos/query/v1.3");
    candidates.push(from_chars(c3.as_slice()));
    let mut c2 = root.clone();
    append_str(&mut c2, "/x-nmos/query/v1.2");
    candidates.push(from_chars(c2.as_slice()));
    let mut c1 = root.clone();
    append_str(&mut c1, "/x-nmos/query/v1.1");
    candidates.push(from_chars(c1.as_slice()));
    let mut c0 = root.clone();
    append_str(&mut c0, "/x-nmos/query/v1.0");
    candidates.push(from_chars(c0.as_slice()));
    QueryUrlPlan::Probe(candidates)
}

/// The next move while probing the Query API candidates in order.
pub enum ProbeStep {
    /// This candidate answered: use it.
    Use(String),
    /// Probe the candidate at this index next.
    Next(usize),
    /// No candidate answered.
    Fail(String),
}

/// After probing the candidate at `index`, which `answered` or not: use it,
/// go on to the next one, or give up when it was the last.
pub fn probe_step(candidates: &Vec<String>, index: usize, answered: bool) -> (r: ProbeStep)
    requires
        index < candidates@.len(),
    ensures
        answered ==> (r matches ProbeStep::Use(u) && u@ == candidates@[index as int]@),
        !answered && index + 1 < candidates@.len() ==> r == ProbeStep::Next((index + 1) as usize),
        !answered && index + 1 >= candidates@.len() ==> (r matches ProbeStep::Fail(e) && e@
            == "Nessuna Query API NMOS compatibile trovata"@),
{
    if answered {
        ProbeStep::Use(candidates[index].clone())
    } else if index < candidates.len() - 1 {
        ProbeStep::Next(index + 1)
    } else {
        ProbeStep::Fail("Nessuna Query API NMOS compatibile trovata".to_string())
    }
}

/// The greatest of the texts, in text order.
pub open spec fn greatest_text(texts: Seq<Seq<char>>) -> Seq<char>
    decreases texts.len(),
{
    if texts.len() <= 1 {
        if texts.len() == 1 { texts[0] } else { Seq::empty() }
    } else {
        let m = greatest_text(texts.drop_last());
        if text_le(m, texts.last()) {
            texts.last()
        } else {
            m
        }
    }
}

/// The Query API version to use from a registry's `api_ver` text: the
/// greatest of its comma-separated versions.
pub open spec fn chosen_version(api_ver: Seq<char>) -> Seq<char> {
    greatest_text(split_by(api_ver, Separator::Char(',')).map_values(|v: Seq<char>| trim(v)))
}

proof fn lemma_text_le_reflexive(a: Seq<char>)
    ensures
        text_le(a, a),
    decreases a.len(),
{
    if a.len() > 0 {
        lemma_text_le_reflexive(a.drop_first());
    }
}

proof fn lemma_greatest_text(texts: Seq<Seq<char>>)
    requires
        texts.len() >= 1,
    ensures
        exists|k: int| 0 <= k < texts.len() && texts[k] == greatest_text(texts),
        forall|k: int| 0 <= k < texts.len() ==> text_le(#[trigger] texts[k], greatest_text(texts)),
    decreases texts.len(),
{
    let g = greatest_text(texts);
    if texts.len() == 1 {
        lemma_text_le_reflexive(texts[0]);
        assert(texts[0] == g);
    } else {
        let init = texts.drop_last();
        lemma_greatest_text(init);
        let m = greatest_text(init);
        let last = texts.last();
        lemma_text_le_reflexive(last);
        lemma_text_le_reflexive(m);
        if text_le(m, last) {
            assert(texts[texts.len() - 1] == g);
            assert forall|k: int| 0 <= k < texts.len() implies text_le(#[trigger] texts[k], g) by {
                if k < texts.len() - 1 {
                    assert(texts[k] == init[k]);
                    lemma_text_le_transitive(init[k], m, last);
                }
            }
        } else {
            lemma_text_le_total(m, last);
            let j = choose|j: int| 0 <= j < init.len() && init[j] == m;
            assert(texts[j] == g);
            assert forall|k: int| 0 <= k < texts.len() implies text_le(#[trigger] texts[k], g) by {
                if k < texts.len() - 1 {
                    assert(texts[k] == init[k]);
                }
            }
        }
    }
}

/// The trimmed comma-separated entries of a registry's `api_ver` text.
pub open spec fn listed_versions(api_ver: Seq<char>) -> Seq<Seq<char>> {
    split_by(api_ver, Separator::Char(',')).map_values(|v: Seq<char>| trim(v))
}

/// Law: the Query API version chosen from a registry's `api_ver` text is
/// one of its comma-separated versions, trimmed, and no listed version
/// comes after it in text order.
pub proof fn lemma_chosen_version_is_greatest(api_ver: Seq<char>)
    ensures
        exists|k: int| 0 <= k < listed_versions(api_ver).len() && listed_versions(api_ver)[k]
            == chosen_version(api_ver),
        forall|k: int| 0 <= k < listed_versions(api_ver).len() ==> text_le(
            #[trigger] listed_versions(api_ver)[k],
            chosen_version(api_ver),
        ),
{
    lemma_split_by_nonempty(api_ver, Separator::Char(','));
    lemma_greatest_text(listed_versions(api_ver));
}

/// The Query API URL of a registry reached at `address`.
pub open spec fn registry_url(protocol: Seq<char>, address: Ipv4Address, port: u16, version: Seq<char>) -> Seq<char> {
    protocol + "://"@ + ipv4_text(address) + ":"@ + decimal(port as nat) + "/x-nmos/query/"@ + version
}

/// The URLs of registries, in order.
pub open spec fn registry_urls(regs: Seq<NmosRegistry>) -> Seq<Seq<char>> {
    regs.map_values(|r: NmosRegistry| r.url@)
}

/// The URLs among `candidates` that are neither in `known` nor repeated.
pub open spec fn new_urls(known: Seq<Seq<char>>, candidates: Seq<Seq<char>>) -> Seq<Seq<char>>
    decreases candidates.len(),
{
    if candidates.len() == 0 {
        Seq::empty()
    } else {
        let before = new_urls(known, candidates.drop_last());
        if known.contains(candidates.last()) || before.contains(candidates.last()) {
            before
        } else {
            before.push(candidates.last())
        }
    }
}

fn choose_version(api_ver: &str) -> (r: Vec<char>)
    ensures
        r@ == chosen_version(api_ver@),
{
    let parts = split_chars(to_chars(api_ver).as_slice(), Separator::Char(','));
    let ghost pieces = split_by(api_ver@, Separator::Char(',')).map_values(|v: Seq<char>| trim(v));
    proof {
        lemma_split_by_nonempty(api_ver@, Separator::Char(','));
    }
    assert(views(parts@)[0] == parts@[0]@);
    let mut best = trim_chars(parts[0].as_slice());
    let n = parts.len();
    let mut i: usize = 1;
    assert(pieces.take(1).drop_last() == Seq::<Seq<char>>::empty());
    while i < n
        invariant
            1 <= i <= n,
            n == parts@.len(),
            pieces.len() == n,
            pieces == split_by(api_ver@, Separator::Char(',')).map_values(|v: Seq<char>| trim(v)),
            views(parts@) == split_by(api_ver@, Separator::Char(',')),
            best@ == greatest_text(pieces.take(i as int)),
        decreases n - i,
    {
        let cand = trim_chars(parts[i].as_slice());
        assert(pieces[i as int] == cand@);
        assert(pieces.take(i + 1).drop_last() == pieces.take(i as int));
        if text_le_chars(best.as_slice(), cand.as_slice()) {
            best = cand;
        }
        i = i + 1;
    }
    assert(pieces.take(n as int) == pieces);
    best
}

fn has_url(regs: &Vec<NmosRegistry>, url: &[char]) -> (r: bool)
    ensures
        r == registry_urls(regs@).contains(url@),
{
    let n = regs.len();
    for i in 0..n
        invariant
            n == regs@.len(),
            forall|k: int| 0 <= k < i ==> regs@[k].url@ != url@,
    {
        if chars_eq(to_chars(regs[i].url.as_str()).as_slice(), url) {
            assert(registry_urls(regs@)[i as int] == url@);
            return true;
        }
    }
    assert forall|k: int| 0 <= k < registry_urls(regs@).len() implies registry_urls(regs@)[k] != url@ by {
        assert(registry_urls(regs@)[k] == regs@[k].url@);
    }
    false
}

/// Adds the registry that a resolved DNS-SD service announces, once for
/// each of its IPv4 addresses whose URL is not listed yet. `api_proto`,
/// `api_ver` and `pri` are its TXT properties: the protocol (default
/// `http`), the supported versions (default `v1.2`) and the priority.
pub fn add_registry(
    registries: &mut Vec<NmosRegistry>,
    fullname: &str,
    hostname: &str,
    port: u16,
    api_proto: Option<&str>,
    api_ver: Option<&str>,
    pri: Option<&str>,
    addresses: &[Ipv4Address],
)
    ensures
        ({
            let protocol = match api_proto { Some(p) => p@, None => "http"@ };
            let version = chosen_version(match api_ver { Some(v) => v@, None => "v1.2"@ });
            let candidates = addresses@.map_values(|a: Ipv4Address| registry_url(protocol, a, port, version));
            let added = new_urls(registry_urls(old(registries)@), candidates);
            &&& final(registries)@.len() == old(registries)@.len() + added.len()
            &&& final(registries)@.take(old(registries)@.len() as int) == old(registries)@
            &&& forall|k: int| 0 <= k < added.len() ==> {
                let r = #[trigger] final(registries)@[old(registries)@.len() + k];
                &&& r.url@ == added[k]
                &&& r.name@ == fullname@
                &&& r.hostname@ == hostname@
                &&& r.api_version@ == version
                &&& r.priority@ == (match pri { Some(p) => p@, None => Seq::empty() })
            }
        }),
{
    let protocol: Vec<char> = match api_proto {
        Some(p) => to_chars(p),
        None => to_chars("http"),
    };
    let version: Vec<char> = match api_ver {
        Some(v) => choose_version(v),
        None => choose_version("v1.2"),
    };
    let priority: String = match pri {
        Some(p) => p.to_string(),
        None => String::new(),
    };
    let ghost candidates = addresses@.map_values(
        |a: Ipv4Address| registry_url(protocol@, a, port, version@),
    );
    let ghost start = old(registries)@;
    let ghost known = registry_urls(start);
    let n = addresses.len();
    assert(candidates.take(0) == Seq::<Seq<char>>::empty());
    assert(registries@.take(start.len() as int) == start);
    for i in 0..n
        invariant
            n == addresses@.len(),
            candidates == addresses@.map_values(|a: Ipv4Address| registry_url(protocol@, a, port, version@)),
            known == registry_urls(start),
            registries@.len() == start.len() + new_urls(known, candidates.take(i as int)).len(),
            registries@.take(start.len() as int) == start,
            registry_urls(registries@) == known + new_urls(known, candidates.take(i as int)),
            forall|k: int| 0 <= k < new_urls(known, candidates.take(i as int)).len() ==> {
                let r = #[trigger] registries@[start.len() + k];
                &&& r.name@ == fullname@
                &&& r.hostname@ == hostname@
                &&& r.api_version@ == version@
                &&& r.priority@ == priority@
            },
    {
        let mut url = protocol.clone();
        append_str(&mut url, "://");
        append_chars(&mut url, ipv4_chars(addresses[i]).as_slice());
        append_str(&mut url, ":");
        append_chars(&mut url, decimal_chars(port as u64).as_slice());
        append_str(&mut url, "/x-nmos/query/");
        append_chars(&mut url, version.as_slice());
        let ghost prefix = candidates.take(i as int);
        let ghost before = new_urls(known, prefix);
        assert(candidates.take(i + 1).drop_last() == prefix);
        assert(candidates.take(i + 1).last() == url@);
        assert(registry_urls(registries@).contains(url@) == (known.contains(url@) || before.contains(url@))) by {
            if known.contains(url@) {
                let k = choose|k: int| 0 <= k < known.len() && known[k] == url@;
                assert(registry_urls(registries@)[k] == url@);
            }
            if before.contains(url@) {
                let k = choose|k: int| 0 <= k < before.len() && before[k] == url@;
                assert(registry_urls(registries@)[known.len() + k] == url@);
            }
            if registry_urls(registries@).contains(url@) {
                let k = choose|k: int| 0 <= k < registry_urls(registries@).len() && registry_urls(registries@)[k] == url@;
                if k < known.len() {
                    assert(known[k] == url@);
                } else {
                    assert(before[k - known.len()] == url@);
                }
            }
        }
        if !has_url(registries, url.as_slice()) {
            let ghost prev = registries@;
            registries.push(
                NmosRegistry {
                    name: fullname.to_string(),
                    hostname: hostname.to_string(),
                    url: from_chars(url.as_slice()),
                    api_version: from_chars(version.as_slice()),
                    priority: priority.clone(),
                },
            );
            assert(registries@.take(start.len() as int) == prev.take(start.len() as int));
            assert(registry_urls(registries@) == registry_urls(prev).push(url@));
            assert forall|k: int| 0 <= k < new_urls(known, candidates.take(i + 1)).len() implies {
                let r = #[trigger] registries@[start.len() + k];
                &&& r.name@ == fullname@
                &&& r.hostname@ == hostname@
                &&& r.api_version@ == version@
                &&& r.priority@ == priority@
            } by {
                if k < before.len() {
                    assert(registries@[start.len() + k] == prev[start.len() + k]);
                }
            }
        }
    }
    assert(candidates.take(n as int) == candidates);
    assert forall|k: int| 0 <= k < new_urls(known, candidates).len() implies registries@[start.len() + k].url@
        == new_urls(known, candidates)[k] by {
        assert(registry_urls(registries@)[start.len() + k] == registries@[start.len() + k].url@);
    }
}

/// An IS-05 request that stages a receiver's connection.
pub struct ConnectionRequest {
    /// Where the request goes: the receiver's staged parameters.
    pub endpoint: String,
    /// The sender to connect, none to disconnect.
    pub sender_id: Option<String>,
    /// Whether the receiver is enabled.
    pub master_enable: bool,
}

/// Whether a request connects a sender: one is given and it is not empty.
pub open spec fn connects(sender_id: Option<String>) -> bool {
    sender_id matches Some(s) && s@.len() > 0
}

/// Prepares the IS-05 request that connects `receiver_id` to `sender_id`,
/// or disconnects it when no (or an empty) sender is given; fails when the
/// receiver's connection API is blank.
pub fn plan_connection(connection_api: &str, receiver_id: &str, sender_id: Option<String>) -> (r: Result<
    ConnectionRequest,
    String,
>)
    ensures
        r is Err <==> trim(connection_api@).len() == 0,
        r matches Err(e) ==> e@ == "Il receiver non espone IS-05"@,
        r matches Ok(req) ==> {
            &&& req.endpoint@ == trim_end_char(connection_api@, '/') + "/single/receivers/"@
                + receiver_id@ + "/staged"@
            &&& req.master_enable == connects(sender_id)
            &&& (req.master_enable ==> req.sender_id == sender_id)
            &&& (!req.master_enable ==> req.sender_id is None)
        },
{
    let api = to_chars(connection_api);
    if trim_chars(api.as_slice()).len() == 0 {
        return Err("Il receiver non espone IS-05".to_string());
    }
    let mut endpoint = trim_end_char_chars(api.as_slice(), '/');
    append_str(&mut endpoint, "/single/receivers/");
    append_str(&mut endpoint, receiver_id);
    append_str(&mut endpoint, "/staged");
    let enabled = match &sender_id {
        Some(s) => s.as_str().unicode_len() > 0,
        None => false,
    };
    Ok(
        ConnectionRequest {
            endpoint: from_chars(endpoint.as_slice()),
            sender_id: if enabled {
                sender_id
            } else {
                None
            },
            master_enable: enabled,
        },
    )
}

/// What the desk reports after the receiver accepted a request.
pub fn connection_message(enabled: bool) -> (r: String)
    ensures
        enabled ==> r@ == "Connessione NMOS attivata"@,
        !enabled ==> r@ == "Receiver NMOS scollegato"@,
{
    if enabled {
        "Connessione NMOS attivata".to_string()
    } else {
        "Receiver NMOS scollegato".to_string()
    }
}

} // verus!
