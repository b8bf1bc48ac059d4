//! A device stand-in that answers each command with a JSON response:
//! scripted by topic, or a default acknowledgement.

use vstd::prelude::*;
use crate::json::{set_member, JsonModel, JsonValue};
use crate::keyed::keys_sorted;
use crate::text::str_eq;

verus! {

/// A scripted answer for commands on one topic.
#[derive(Debug, PartialEq)]
pub struct MockResponseRule {
    pub topic: String,
    pub response: JsonValue,
}

/// The scripted answers, looked up by topic in order.
#[derive(Debug, PartialEq)]
pub struct MockResponseScript {
    pub responses: Vec<MockResponseRule>,
}

/// The mock device: answers from its script, else a default
/// acknowledgement.
#[derive(Debug, PartialEq)]
pub struct MockDeviceResponder {
    script: MockResponseScript,
}

/// The index of the first rule for `topic` at or after `from`; the number
/// of rules if there is none.
pub open spec fn first_rule_index(rules: Seq<MockResponseRule>, topic: Seq<char>, from: int) -> int
    decreases rules.len() - from,
{
    if from < 0 || from >= rules.len() {
        rules.len() as int
    } else if rules[from].topic@ == topic {
        from
    } else {
        first_rule_index(rules, topic, from + 1)
    }
}

/// `r` is a scripted response: the rule's response object, with the
/// command's request id put in as `reqId` unless it already holds a
/// string `reqId`.
pub open spec fn is_scripted_reply(rule_response: JsonModel, req_id: Seq<char>, r: JsonModel) -> bool {
    &&& r is Object
    &&& r == if rule_response.str_field("reqId"@) is Some {
        rule_response
    } else {
        JsonModel::Object(set_member(rule_response->Object_0, "reqId"@, JsonModel::Str(req_id)))
    }
    &&& rule_response.str_field("reqId"@) is Some ==> r == rule_response
    &&& rule_response.str_field("reqId"@) is None ==> {
        &&& r.field("reqId"@) == Some(JsonModel::Str(req_id))
        &&& forall|k: Seq<char>| k != "reqId"@ ==> #[trigger] r.field(k) == rule_response.field(k)
        &&& forall|k: Seq<char>| #[trigger] r.keys().contains(k) == (rule_response.keys().contains(k) || k == "reqId"@)
    }
}

/// The default acknowledgement of a command:
/// `{"data": {"mock": true, "topic": topic}, "ok": true, "reqId": req_id}`
/// with `null` for a missing topic.
pub open spec fn default_ack_model(req_id: Seq<char>, topic: Option<Seq<char>>) -> JsonModel {
    let topic_model = match topic {
        Some(t) => JsonModel::Str(t),
        None => JsonModel::Null,
    };
    let data = JsonModel::Object(seq![("mock"@, JsonModel::Bool(true)), ("topic"@, topic_model)]);
    JsonModel::Object(seq![("data"@, data), ("ok"@, JsonModel::Bool(true)), ("reqId"@, JsonModel::Str(req_id))])
}

/// `r` is the default acknowledgement of a command (see `default_ack_model`).
pub open spec fn is_default_ack(r: JsonModel, req_id: Seq<char>, topic: Option<Seq<char>>) -> bool {
    r == default_ack_model(req_id, topic)
}

/// `r` is how the mock device answers `command` with rules `rules`: no
/// answer unless the command has a string `reqId`; else the scripted reply
/// of the first rule for the command's `topic` when that rule's response is
/// an object; else the default acknowledgement.
pub open spec fn is_response_to(rules: Seq<MockResponseRule>, command: JsonModel, r: Option<JsonModel>) -> bool {
    match command.str_field("reqId"@) {
        None => r is None,
        Some(req) => r matches Some(v) && ({
            let topic = command.str_field("topic"@);
            let idx = match topic {
                Some(t) => first_rule_index(rules, t, 0),
                None => rules.len() as int,
            };
            if idx < rules.len() && rules[idx].response is Object {
                is_scripted_reply(rules[idx].response.model(), req, v)
            } else {
                is_default_ack(v, req, topic)
            }
        }),
    }
}

/// `first_rule_index` lies between `from` and the number of rules.
proof fn lemma_first_rule_index(rules: Seq<MockResponseRule>, topic: Seq<char>, from: int)
    requires
        0 <= from <= rules.len(),
    ensures
        from <= first_rule_index(rules, topic, from) <= rules.len(),
    decreases rules.len() - from,
{
    if from < rules.len() && rules[from].topic@ != topic {
        lemma_first_rule_index(rules, topic, from + 1);
    }
}

/// The mock device answers every command that carries a string `reqId`,
/// and its answer carries that `reqId`, unless a scripted response brings a
/// string `reqId` of its own; a command without one gets no answer.
pub proof fn law_mock_reply_carries_req_id(rules: Seq<MockResponseRule>, command: JsonModel, r: Option<JsonModel>)
    requires
        is_response_to(rules, command, r),
    ensures
        command.str_field("reqId"@) is None ==> r is None,
        command.str_field("reqId"@) matches Some(req) ==> (r matches Some(v) && (v.str_field("reqId"@) == Some(req) || exists|i: int|
            0 <= i < rules.len() && (#[trigger] rules[i]).response.model().str_field("reqId"@) == v.str_field("reqId"@)
                && v.str_field("reqId"@) is Some)),
{
    if let Some(req) = command.str_field("reqId"@) {
        let v = r->0;
        let topic = command.str_field("topic"@);
        let idx = match topic {
            Some(t) => first_rule_index(rules, t, 0),
            None => rules.len() as int,
        };
        if let Some(t) = topic {
            lemma_first_rule_index(rules, t, 0);
        }
        if idx < rules.len() && rules[idx].response is Object {
            let rr = rules[idx].response.model();
            if rr.str_field("reqId"@) is Some {
                assert(rules[idx].response.model().str_field("reqId"@) == v.str_field("reqId"@));
            }
        } else {
            reveal_strlit("data");
            reveal_strlit("ok");
            reveal_strlit("reqId");
            assert(v == default_ack_model(req, topic));
            let es = v->Object_0;
            assert(es[0].0 == "data"@ && es[1].0 == "ok"@ && es[2].0 == "reqId"@);
            assert("data"@.len() == 4 && "ok"@.len() == 2 && "reqId"@.len() == 5);
            assert(es[0].0 != "reqId"@ && es[1].0 != "reqId"@);
            crate::json::lemma_first_member_is(es, "reqId"@, 0, 2);
        }
    }
}

/// `r` is how the mock device answers a written command whose text is
/// `body`: no answer when the text is not JSON, else the answer to the JSON
/// value it holds (see `is_response_to`).
pub open spec fn answers_body(rules: Seq<MockResponseRule>, body: Seq<u8>, r: Option<JsonModel>) -> bool {
    match crate::protocol::json_of_bytes(body) {
        None => r is None,
        Some(command) => is_response_to(rules, command, r),
    }
}

/// A string value.
fn json_str(s: &str) -> (r: JsonValue)
    ensures
        r.model() == JsonModel::Str(s@),
{
    JsonValue::Str(String::from_str(s))
}

/// The default acknowledgement of a command (see `default_ack_model`).
pub fn default_ack_response(req_id: &str, topic: Option<&str>) -> (r: JsonValue)
    ensures
        r.fields_ordered(),
        is_default_ack(r.model(), req_id@, match topic {
            Some(t) => Some(t@),
            None => None,
        }),
{
    proof {
        reveal_strlit("data");
        reveal_strlit("ok");
        reveal_strlit("reqId");
    }
    let ghost topic_model = match topic {
        Some(t) => JsonModel::Str(t@),
        None => JsonModel::Null,
    };
    let topic_value = match topic {
        Some(t) => json_str(t),
        None => JsonValue::Null,
    };
    assert(topic_value.model() == topic_model);
    let mock = JsonValue::Bool(true);
    assert(mock.model() == JsonModel::Bool(true));
    let ok = JsonValue::Bool(true);
    assert(ok.model() == JsonModel::Bool(true));
    let mut data_entries: Vec<(String, JsonValue)> = Vec::new();
    data_entries.push((String::from_str("mock"), mock));
    data_entries.push((String::from_str("topic"), topic_value));
    let data = JsonValue::Object(data_entries);
    assert(data.model()->Object_0 =~= seq![("mock"@, JsonModel::Bool(true)), ("topic"@, topic_model)]);
    let id = json_str(req_id);
    let mut entries: Vec<(String, JsonValue)> = Vec::new();
    entries.push((String::from_str("data"), data));
    entries.push((String::from_str("ok"), ok));
    entries.push((String::from_str("reqId"), id));
    let r = JsonValue::Object(entries);
    let ghost topic_spec = match topic {
        Some(t) => Some(t@),
        None => None::<Seq<char>>,
    };
    let ghost expected = default_ack_model(req_id@, topic_spec);
    let ghost rm = r.model()->Object_0;
    let ghost topic_of_spec = match topic_spec {
        Some(t) => JsonModel::Str(t),
        None => JsonModel::Null,
    };
    assert(topic_of_spec == topic_model);
    assert(expected->Object_0[0].1->Object_0 =~= seq![("mock"@, JsonModel::Bool(true)), ("topic"@, topic_of_spec)]);
    assert(rm =~= expected->Object_0);
    assert(crate::text::chars_lt("data"@, "ok"@));
    assert(crate::text::chars_lt("ok"@, "reqId"@));
    assert(crate::text::chars_lt("data"@, "reqId"@));
    assert(keys_sorted(entries@));
    r
}

impl MockResponseScript {
    /// A script with no rules.
    pub fn new() -> (r: MockResponseScript)
        ensures
            r.responses@.len() == 0,
    {
        MockResponseScript { responses: Vec::new() }
    }

    /// The rules, in order.
    pub fn responses(&self) -> (r: &Vec<MockResponseRule>)
        ensures
            r@ == self.responses@,
    {
        &self.responses
    }

    /// The index of the first rule for `topic`, if any.
    fn find_rule(&self, topic: &str) -> (r: Option<usize>)
        ensures
            match r {
                Some(i) => i == first_rule_index(self.responses@, topic@, 0) && i < self.responses@.len(),
                None => first_rule_index(self.responses@, topic@, 0) == self.responses@.len(),
            },
    {
        let mut i: usize = 0;
        while i < self.responses.len()
            invariant
                i <= self.responses@.len(),
                first_rule_index(self.responses@, topic@, 0) == first_rule_index(self.responses@, topic@, i as int),
            decreases self.responses@.len() - i,
        {
            if str_eq(self.responses[i].topic.as_str(), topic) {
                return Some(i);
            }
            i = i + 1;
        }
        None
    }

    /// The scripted response for a topic: the first rule for the topic, if
    /// its response is an object, with `reqId` put in.
    fn response_for_topic(&self, topic: &str, req_id: &str) -> (r: Option<JsonValue>)
        ensures
            ({
                let idx = first_rule_index(self.responses@, topic@, 0);
                if idx < self.responses@.len() && self.responses@[idx].response is Object {
                    r matches Some(v) && is_scripted_reply(self.responses@[idx].response.model(), req_id@, v.model())
                } else {
                    r is None
                }
            }),
    {
        let i = match self.find_rule(topic) {
            Some(i) => i,
            None => return None,
        };
        let rule_response = &self.responses[i].response;
        if !rule_response.is_object() {
            return None;
        }
        let mut response = rule_response.deep_copy();
        proof {
            rule_response.lemma_same_model(response);
        }
        let existing = response.get_str_field("reqId");
        match existing {
            Some(_) => {},
            None => {
                response.set_field(String::from_str("reqId"), json_str(req_id));
            },
        }
        Some(response)
    }
}

impl Default for MockResponseScript {
    /// A script with no rules.
    fn default() -> (r: MockResponseScript)
        ensures
            r.responses@.len() == 0,
    {
        MockResponseScript::new()
    }
}

impl Default for MockDeviceResponder {
    /// A responder with an empty script.
    fn default() -> (r: MockDeviceResponder)
        ensures
            r.script().responses@.len() == 0,
    {
        MockDeviceResponder::new()
    }
}

impl MockDeviceResponder {
    /// A responder with an empty script: it always acknowledges.
    pub fn new() -> (r: MockDeviceResponder)
        ensures
            r.script().responses@.len() == 0,
    {
        MockDeviceResponder { script: MockResponseScript::new() }
    }

    /// A responder that answers from `script`.
    pub fn from_script(script: MockResponseScript) -> (r: MockDeviceResponder)
        ensures
            r.script() == script,
    {
        MockDeviceResponder { script }
    }

    /// The script this responder answers from.
    pub closed spec fn script(&self) -> MockResponseScript {
        self.script
    }

    /// The response to a command: none unless the command is an object with
    /// a string `reqId`; else the scripted response for its `topic` when the
    /// script has one, else the default acknowledgement.
    pub fn response_for_command(&self, command: &JsonValue) -> (r: Option<JsonValue>)
        ensures
            is_response_to(self.script().responses@, command.model(), match r {
                Some(v) => Some(v.model()),
                None => None,
            }),
    {
        let req_id = match command.get_str_field("reqId") {
            Some(r) => r,
            None => return None,
        };
        let topic = command.get_str_field("topic");
        match &topic {
            Some(t) => {
                match self.script.response_for_topic(t.as_str(), req_id.as_str()) {
                    Some(scripted) => return Some(scripted),
                    None => {},
                }
            },
            None => {},
        }
        let topic_ref: Option<&str> = match &topic {
            Some(t) => Some(t.as_str()),
            None => None,
        };
        Some(default_ack_response(req_id.as_str(), topic_ref))
    }
}

impl MockDeviceResponder {
    /// The response to a written frame: the frame's body (without its
    /// line ending) parsed as JSON and answered as `response_for_command`
    /// does; none when the body is not JSON.
    pub fn response_for_frame(&self, frame: &[u8], delimiter: &str) -> (r: Option<JsonValue>)
        ensures
            answers_body(self.script().responses@, crate::protocol::trimmed_frame(frame@, crate::protocol::utf8_of(delimiter@)), match r {
                Some(v) => Some(v.model()),
                None => None,
            }),
    {
        match crate::protocol::line_json(frame, delimiter) {
            Some(command) => self.response_for_command(&command),
            None => None,
        }
    }
}

} // verus!
