//! The request pipeline: every call of a request, in order, resolved against
//! the responses before it, dispatched, and answered.
use vstd::prelude::*;
use vstd::string::*;

use crate::codec::{
    invocations_model, RequestView, Argument, ArgumentView, Arguments, Invocation, InvocationView,
    ReferenceView, Request, Response,
};
use crate::common::SessionState;
use crate::errors::{method_error_name, MethodError, ProblemType};
use crate::extensions::{dispatch, Endpoint, ExtensionRegistry, ExtensionRouterRegistry};
use crate::json::{Json, JsonView};
use crate::resolver::{
    find_response, resolve_all, resolve_argument, resolve_arguments, ResolvedArguments,
};
use crate::store::{counter_of, user_by_username, Store};
use crate::util::{decimal_digits, decimal_text};

verus! {

/// The response that stands in for a call that failed with `e`:
/// `["error", {"type": <name of e>}, call id]`.
pub open spec fn error_invocation(e: MethodError, call_id: Seq<char>) -> InvocationView {
    InvocationView {
        name: "error"@,
        arguments: seq![("type"@, ArgumentView::Absolute(JsonView::Str(method_error_name(e))))],
        call_id,
    }
}

/// Values as literal arguments.
pub open spec fn absolute_arguments(values: Seq<(Seq<char>, JsonView)>) -> Seq<
    (Seq<char>, ArgumentView),
> {
    Seq::new(values.len(), |i: int| (values[i].0, ArgumentView::Absolute(values[i].1)))
}

/// The response to one call, given the responses of the calls before it.
pub open spec fn process_call(
    earlier: Seq<InvocationView>,
    call: InvocationView,
    core_routes: Seq<(Seq<char>, Endpoint)>,
) -> InvocationView {
    match resolve_all(earlier, call.arguments) {
        None => error_invocation(MethodError::InvalidResultReference, call.call_id),
        Some(resolved) => match dispatch(core_routes, call.name, resolved) {
            None => error_invocation(MethodError::UnknownMethod, call.call_id),
            Some(out) => InvocationView {
                name: call.name,
                arguments: absolute_arguments(out),
                call_id: call.call_id,
            },
        },
    }
}

/// The responses to a list of calls, processed strictly in order.
pub open spec fn process_calls(
    calls: Seq<InvocationView>,
    core_routes: Seq<(Seq<char>, Endpoint)>,
) -> Seq<InvocationView>
    decreases calls.len(),
{
    if calls.len() == 0 {
        Seq::empty()
    } else {
        let earlier = process_calls(calls.drop_last(), core_routes);
        earlier.push(process_call(earlier, calls.last(), core_routes))
    }
}

/// Every call gets exactly one response, in the calls' order, carrying the
/// call's id.
pub proof fn lemma_one_response_per_call(
    calls: Seq<InvocationView>,
    core_routes: Seq<(Seq<char>, Endpoint)>,
)
    ensures
        process_calls(calls, core_routes).len() == calls.len(),
        forall|i: int|
            0 <= i < calls.len() ==> (#[trigger] process_calls(calls, core_routes)[i]).call_id
                == calls[i].call_id,
    decreases calls.len(),
{
    if calls.len() > 0 {
        let shorter = calls.drop_last();
        lemma_one_response_per_call(shorter, core_routes);
        let out = process_calls(calls, core_routes);
        assert forall|i: int| 0 <= i < calls.len() implies (#[trigger] out[i]).call_id
            == calls[i].call_id by {
            if i < calls.len() - 1 {
                assert(out[i] == process_calls(shorter, core_routes)[i]);
                assert(shorter[i] == calls[i]);
            }
        }
    }
}

/// The responses to the first calls do not depend on the calls after them.
proof fn lemma_process_prefix(
    calls: Seq<InvocationView>,
    core_routes: Seq<(Seq<char>, Endpoint)>,
    n: int,
)
    requires
        0 <= n <= calls.len(),
    ensures
        process_calls(calls, core_routes).take(n) == process_calls(calls.take(n), core_routes),
    decreases calls.len(),
{
    lemma_one_response_per_call(calls, core_routes);
    lemma_one_response_per_call(calls.take(n), core_routes);
    if n == calls.len() {
        assert(calls.take(n) =~= calls);
        assert(process_calls(calls, core_routes).take(n) =~= process_calls(calls, core_routes));
    } else {
        let shorter = calls.drop_last();
        lemma_process_prefix(shorter, core_routes, n);
        lemma_one_response_per_call(shorter, core_routes);
        assert(shorter.take(n) =~= calls.take(n));
        assert(process_calls(calls, core_routes).take(n) =~= process_calls(shorter, core_routes).take(
            n,
        ));
    }
}

proof fn lemma_no_response_with_id(responses: Seq<InvocationView>, r: ReferenceView)
    requires
        forall|j: int| 0 <= j < responses.len() ==> #[trigger] responses[j].call_id != r.result_of,
    ensures
        find_response(responses, r) is None,
    decreases responses.len(),
{
    if responses.len() > 0 {
        let rest = responses.drop_first();
        assert forall|j: int| 0 <= j < rest.len() implies #[trigger] rest[j].call_id
            != r.result_of by {
            assert(rest[j] == responses[j + 1]);
        }
        lemma_no_response_with_id(rest, r);
    }
}

/// A call with a reference whose `resultOf` is the id of no earlier call
/// fails with `invalidResultReference`, whatever its other content: a call
/// never sees the results of the calls after it.
pub proof fn lemma_forward_reference_fails(
    calls: Seq<InvocationView>,
    core_routes: Seq<(Seq<char>, Endpoint)>,
    i: int,
    k: int,
)
    requires
        0 <= i < calls.len(),
        0 <= k < calls[i].arguments.len(),
        calls[i].arguments[k].1 is Reference,
        forall|j: int|
            0 <= j < i ==> #[trigger] calls[j].call_id != calls[i].arguments[k].1->Reference_0.result_of,
    ensures
        process_calls(calls, core_routes)[i] == error_invocation(
            MethodError::InvalidResultReference,
            calls[i].call_id,
        ),
{
    let r = calls[i].arguments[k].1->Reference_0;
    let upto = calls.take(i + 1);
    lemma_process_prefix(calls, core_routes, i + 1);
    lemma_one_response_per_call(calls, core_routes);
    assert(upto.drop_last() =~= calls.take(i));
    let earlier = process_calls(calls.take(i), core_routes);
    lemma_one_response_per_call(calls.take(i), core_routes);
    assert forall|j: int| 0 <= j < earlier.len() implies #[trigger] earlier[j].call_id
        != r.result_of by {
        assert(calls.take(i)[j] == calls[j]);
    }
    lemma_no_response_with_id(earlier, r);
    assert(resolve_argument(earlier, calls[i].arguments[k].1) is None);
    assert(resolve_all(earlier, calls[i].arguments) is None);
    assert(process_calls(upto, core_routes)[i] == process_call(earlier, calls[i], core_routes));
    assert(process_calls(calls, core_routes).take(i + 1)[i] == process_calls(calls, core_routes)[i]);
}

/// A reference to a call that comes later in the same request fails with
/// `invalidResultReference`, where the calls' ids are distinct.
pub proof fn lemma_reference_to_later_call_fails(
    calls: Seq<InvocationView>,
    core_routes: Seq<(Seq<char>, Endpoint)>,
    i: int,
    k: int,
    later: int,
)
    requires
        0 <= i < later < calls.len(),
        0 <= k < calls[i].arguments.len(),
        calls[i].arguments[k].1 is Reference,
        calls[i].arguments[k].1->Reference_0.result_of == calls[later].call_id,
        forall|a: int, b: int| 0 <= a < b < calls.len() ==> calls[a].call_id != calls[b].call_id,
    ensures
        process_calls(calls, core_routes)[i] == error_invocation(
            MethodError::InvalidResultReference,
            calls[i].call_id,
        ),
{
    assert forall|j: int| 0 <= j < i implies #[trigger] calls[j].call_id
        != calls[i].arguments[k].1->Reference_0.result_of by {
        assert(calls[j].call_id != calls[later].call_id);
    }
    lemma_forward_reference_fails(calls, core_routes, i, k);
}

impl MethodError {
    /// The response that stands in for a call that failed with this error.
    pub fn into_invocation(self, call_id: String) -> (r: Invocation)
        ensures
            r@ == error_invocation(self, call_id@),
    {
        let mut args = Arguments(Vec::new());
        args.0.push((String::from_str("type"), Argument::Absolute(Json::Str(self.name()))));
        let r = Invocation { name: String::from_str("error"), arguments: args, call_id };
        assert(r@.arguments =~= error_invocation(self, call_id@).arguments);
        r
    }
}

/// Handler output as literal arguments.
fn into_arguments(values: &ResolvedArguments) -> (r: Arguments)
    ensures
        r@ == absolute_arguments(values@),
{
    let mut out: Vec<(String, Argument)> = Vec::new();
    let mut i: usize = 0;
    while i < values.0.len()
        invariant
            i <= values.0.len(),
            out@.len() == i,
            forall|k: int|
                0 <= k < i ==> (#[trigger] out@[k]).0@ == values@[k].0 && out@[k].1@
                    == ArgumentView::Absolute(values@[k].1),
        decreases values.0.len() - i,
    {
        out.push((values.0[i].0.clone(), Argument::Absolute(values.0[i].1.copy())));
        i = i + 1;
    }
    let r = Arguments(out);
    assert(r@ =~= absolute_arguments(values@));
    r
}

/// Processes the calls of `request` in order. Each call's arguments are
/// resolved against the responses before it; an unresolvable reference
/// answers `invalidResultReference`, an unknown method `unknownMethod`;
/// otherwise the handler's result answers under the call's name. No call's
/// failure stops the others. The session state is the decimal text of
/// `state`.
pub fn handle_request(
    request: &Request,
    state: u64,
    registry: &ExtensionRegistry,
    routers: &ExtensionRouterRegistry,
) -> (r: Response)
    ensures
        invocations_model(r.method_responses@) == process_calls(
            request@.method_calls,
            routers.core@,
        ),
        r.created_ids is None,
        r.session_state.0@ == decimal_digits(state as nat),
{
    let ghost calls = request@.method_calls;
    let mut response = Response {
        method_responses: Vec::new(),
        created_ids: None,
        session_state: SessionState(decimal_text(state)),
    };
    assert(invocations_model(response.method_responses@) =~= process_calls(
        calls.take(0),
        routers.core@,
    ));
    let mut i: usize = 0;
    while i < request.method_calls.len()
        invariant
            calls == request@.method_calls,
            calls.len() == request.method_calls@.len(),
            i <= request.method_calls.len(),
            invocations_model(response.method_responses@) == process_calls(
                calls.take(i as int),
                routers.core@,
            ),
            response.created_ids is None,
            response.session_state.0@ == decimal_digits(state as nat),
        decreases request.method_calls.len() - i,
    {
        let call = &request.method_calls[i];
        let ghost earlier = invocations_model(response.method_responses@);
        assert(calls.take(i + 1).drop_last() =~= calls.take(i as int));
        assert(calls.take(i + 1).last() == call@);
        let answer = match resolve_arguments(&response, &call.arguments) {
            None => MethodError::InvalidResultReference.into_invocation(call.call_id.clone()),
            Some(resolved) => match routers.handle(&call.name, registry, resolved) {
                None => MethodError::UnknownMethod.into_invocation(call.call_id.clone()),
                Some(out) => Invocation {
                    name: call.name.clone(),
                    arguments: into_arguments(&out),
                    call_id: call.call_id.clone(),
                },
            },
        };
        assert(answer@ == process_call(earlier, call@, routers.core@));
        response.method_responses.push(answer);
        assert(invocations_model(response.method_responses@) =~= earlier.push(answer@));
        i = i + 1;
    }
    assert(calls.take(i as int) =~= calls);
    response
}


/// Answers `request` for the user called `username`: the session state is
/// that user's counter. `None` where no such user exists.
pub fn handle(
    store: &Store,
    username: &str,
    request: &Request,
    registry: &ExtensionRegistry,
    routers: &ExtensionRouterRegistry,
) -> (r: Option<Response>)
    requires
        store.wf(),
    ensures
        user_by_username(store@, username@) is None ==> r is None,
        user_by_username(store@, username@) matches Some(u) ==> (r matches Some(resp)
            && invocations_model(resp.method_responses@) == process_calls(
            request@.method_calls,
            routers.core@,
        ) && resp.session_state.0@ == decimal_digits(counter_of(store@, u.id))),
{
    let user = match store.get_by_username(username) {
        Some(u) => u,
        None => return None,
    };
    let state = store.fetch_seq_number_for_user(user.id());
    Some(handle_request(request, state, registry, routers))
}

/// The capabilities a request may name in `using`: those the session
/// resource advertises.
pub open spec fn supported_capability(uri: Seq<char>) -> bool {
    uri == "urn:ietf:params:jmap:core"@ || uri == "urn:ietf:params:jmap:principals"@
}

/// What rejects a whole request before any call runs: a capability in
/// `using` that the server does not support, else more calls than
/// `max_calls` allows.
pub open spec fn request_problem(request: RequestView, max_calls: u64) -> Option<ProblemType> {
    if exists|i: int| 0 <= i < request.using.len() && !supported_capability(#[trigger] request.using[i]) {
        Some(ProblemType::UnknownCapability)
    } else if request.method_calls.len() > max_calls {
        Some(ProblemType::OverLimit)
    } else {
        None
    }
}

/// Checks `request` against the server's capabilities and limits; `None`
/// where it may be processed.
pub fn check_request(request: &Request, registry: &ExtensionRegistry) -> (r: Option<ProblemType>)
    ensures
        r == request_problem(request@, registry.core.core_capabilities.max_calls_in_request),
{
    let core = String::from_str("urn:ietf:params:jmap:core");
    let principals = String::from_str("urn:ietf:params:jmap:principals");
    let ghost using = request@.using;
    let mut i: usize = 0;
    while i < request.using.len()
        invariant
            using == request@.using,
            using.len() == request.using@.len(),
            core@ == "urn:ietf:params:jmap:core"@,
            principals@ == "urn:ietf:params:jmap:principals"@,
            i <= request.using.len(),
            forall|k: int| 0 <= k < i ==> supported_capability(#[trigger] using[k]),
        decreases request.using.len() - i,
    {
        assert(using[i as int] == request.using@[i as int]@);
        if !(request.using[i] == core || request.using[i] == principals) {
            assert(!supported_capability(using[i as int]));
            return Some(ProblemType::UnknownCapability);
        }
        i = i + 1;
    }
    if request.method_calls.len() as u64 > registry.core.core_capabilities.max_calls_in_request {
        Some(ProblemType::OverLimit)
    } else {
        None
    }
}

} // verus!
