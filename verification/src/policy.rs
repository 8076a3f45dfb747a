//! The forwarding policy: a message is forwarded only when its method is on
//! the method allow-list, and a wrapped action only when the inner action
//! name is on the action allow-list as well. A rejection is silent policy,
//! not failure. The lists and destination URLs are configuration, owned by
//! the caller and read-only here.

use vstd::prelude::*;
use crate::bytesutil::{bytes_eq, in_list, list_contains};

verus! {

pub struct Policy {
    /// Primary destination of dispatch posts.
    pub api_url: Vec<u8>,
    /// Optional second destination.
    pub api_url2: Option<Vec<u8>>,
    /// Forwardable method names.
    pub methods: Vec<Vec<u8>>,
    /// Forwardable inner-action names, for the action-wrapper method.
    pub actions: Vec<Vec<u8>>,
}

pub open spec fn opt_bytes_view(a: Option<&Vec<u8>>) -> Option<Seq<u8>> {
    match a {
        Some(v) => Some(v@),
        None => None,
    }
}

/// The forwarding decision, a pure function of the method name, the inner
/// action name and the two allow-lists.
pub open spec fn spec_should_forward(
    methods: Seq<Seq<u8>>,
    actions: Seq<Seq<u8>>,
    wrapper: Seq<u8>,
    method: Seq<u8>,
    action: Option<Seq<u8>>,
) -> bool {
    &&& in_list(methods, method)
    &&& (method == wrapper ==> action is Some && in_list(actions, action.unwrap()))
}

impl Policy {
    /// Forward or drop. `wrapper` is the action-wrapper method name;
    /// `action` is the inner action name when the method wraps one.
    pub fn should_forward(&self, wrapper: &[u8], method: &[u8], action: Option<&Vec<u8>>)
        -> (r: bool)
        ensures
            r == spec_should_forward(
                self.methods.deep_view(),
                self.actions.deep_view(),
                wrapper@,
                method@,
                opt_bytes_view(action),
            ),
    {
        if !list_contains(&self.methods, method) {
            return false;
        }
        if bytes_eq(method, wrapper) {
            match action {
                Some(a) => list_contains(&self.actions, a.as_slice()),
                None => false,
            }
        } else {
            true
        }
    }
}

/// Adding a name to a list leaves membership of every other name unchanged.
pub proof fn lemma_in_list_push(l: Seq<Seq<u8>>, x: Seq<u8>, y: Seq<u8>)
    requires
        x != y,
    ensures
        in_list(l.push(y), x) == in_list(l, x),
{
    if in_list(l, x) {
        let i = choose|i: int| 0 <= i < l.len() && l[i] == x;
        assert(l.push(y)[i] == x);
    }
    if in_list(l.push(y), x) {
        let i = choose|i: int| 0 <= i < l.push(y).len() && l.push(y)[i] == x;
        assert(i < l.len());
        assert(l[i] == x);
    }
}

/// Toggling a method-list entry changes the decision only for messages
/// bearing that method name.
pub proof fn lemma_policy_toggle_method(
    methods: Seq<Seq<u8>>,
    actions: Seq<Seq<u8>>,
    wrapper: Seq<u8>,
    added: Seq<u8>,
    method: Seq<u8>,
    action: Option<Seq<u8>>,
)
    requires
        method != added,
    ensures
        spec_should_forward(methods.push(added), actions, wrapper, method, action)
            == spec_should_forward(methods, actions, wrapper, method, action),
{
    lemma_in_list_push(methods, method, added);
}

/// Toggling an action-list entry changes the decision only for wrapped
/// actions bearing that action name.
pub proof fn lemma_policy_toggle_action(
    methods: Seq<Seq<u8>>,
    actions: Seq<Seq<u8>>,
    wrapper: Seq<u8>,
    added: Seq<u8>,
    method: Seq<u8>,
    action: Option<Seq<u8>>,
)
    requires
        action is Some ==> action.unwrap() != added,
    ensures
        spec_should_forward(methods, actions.push(added), wrapper, method, action)
            == spec_should_forward(methods, actions, wrapper, method, action),
{
    if action is Some {
        lemma_in_list_push(actions, action.unwrap(), added);
    }
}

} // verus!
