//! Routing rules of a snapshot.

use crate::error::NisporError;
use netlink_packet_route::rule::RuleMessage;
use vstd::prelude::*;

verus! {

/// `netlink_packet_route::rule::RuleMessage`, a routing rule as the kernel
/// sends it, declared so that a listing of them can be handed through.
/// Nothing is claimed of what a message holds.
#[verifier::external_type_specification]
#[verifier::external_body]
pub struct ExRuleMessage(netlink_packet_route::rule::RuleMessage);

/// One routing rule. Nothing of a rule is modelled yet but that it exists.
#[derive(Clone, Copy, Debug, PartialEq, Eq, Structural)]
pub struct RouteRule {}

/// The routing rules that a listing of the kernel holds, one for each
/// message and in the order of the messages.
pub fn get_routes(messages: Vec<RuleMessage>) -> (r: Result<Vec<RouteRule>, NisporError>)
    ensures
        r is Ok,
        r->Ok_0@ == Seq::new(messages@.len(), |i: int| RouteRule {  }),
{
    let ghost all = messages@;
    let mut rules: Vec<RouteRule> = Vec::new();
    for rt_msg in it: messages
        invariant
            it.seq() == all,
            rules@ == Seq::new(it.index() as nat, |i: int| RouteRule {  }),
    {
        let ghost before = rules@;
        rules.push(get_route_rule(rt_msg)?);
        assert(rules@ =~= Seq::new((it.index() + 1) as nat, |i: int| RouteRule {  }));
    }
    Ok(rules)
}

fn get_route_rule(route_msg: RuleMessage) -> (r: Result<RouteRule, NisporError>)
    ensures
        r == Ok::<RouteRule, NisporError>(RouteRule {  }),
{
    Ok(RouteRule {  })
}

} // verus!
