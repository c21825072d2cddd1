//! Push rules.

use vstd::prelude::*;

verus! {

#[derive(Clone, Debug)]
pub struct PushCondition {
    pub is: String,
    pub key: String,
    pub kind: String,
    pub pattern: String,
}

#[derive(Clone, Debug)]
pub struct PushRule {
    pub actions: Vec<serde_json::Value>,
    pub conditions: Option<Vec<PushCondition>>,
    pub default: bool,
    pub enabled: bool,
    pub pattern: Option<String>,
    pub rule_id: Option<String>,
}

#[derive(Clone, Debug)]
pub struct Ruleset {
    pub content: Vec<PushRule>,
    pub override_: Vec<PushRule>,
    pub room: Vec<PushRule>,
    pub sender: Vec<PushRule>,
    pub underride: Vec<PushRule>,
}

#[derive(Clone, Debug)]
pub struct GlobalPushRules {
    pub global: Ruleset,
}

/// The push rules of a user: there are none.
pub fn global() -> (r: GlobalPushRules)
    ensures
        r.global.content@.len() == 0,
        r.global.override_@.len() == 0,
        r.global.room@.len() == 0,
        r.global.sender@.len() == 0,
        r.global.underride@.len() == 0,
{
    GlobalPushRules {
        global: Ruleset {
            content: Vec::new(),
            override_: Vec::new(),
            room: Vec::new(),
            sender: Vec::new(),
            underride: Vec::new(),
        },
    }
}

} // verus!
