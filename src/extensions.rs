//! The extensions the server offers, their capability metadata, and the
//! routing of `Namespace/endpoint` method names to their handlers.
use vstd::prelude::*;
use vstd::string::*;

use crate::common::{Id, UnsignedInt};
use crate::config::CoreCapabilities;
use crate::json::{lemma_object_members, members_model, Json, JsonView, MemberView};
use crate::resolver::ResolvedArguments;
use crate::session::{core_capability_json, number_member, CoreCapability};
use crate::util::{split_once, split_once_spec};

verus! {

/// A handler reachable through a router.
#[derive(Clone, Copy, Debug, PartialEq, Eq, Structural)]
pub enum Endpoint {
    /// `Core/echo`: answers with its own arguments.
    Echo,
}

/// What an endpoint answers to resolved arguments.
pub open spec fn endpoint_result(e: Endpoint, params: Seq<(Seq<char>, JsonView)>) -> Seq<
    (Seq<char>, JsonView),
> {
    match e {
        Endpoint::Echo => params,
    }
}

/// The endpoint registered under `name`: the first entry with that name.
pub open spec fn route_of(routes: Seq<(Seq<char>, Endpoint)>, name: Seq<char>) -> Option<Endpoint>
    decreases routes.len(),
{
    if routes.len() == 0 {
        None
    } else if routes[0].0 == name {
        Some(routes[0].1)
    } else {
        route_of(routes.drop_first(), name)
    }
}

/// The routes of one extension: endpoint names and their handlers.
pub struct ExtensionRouter {
    pub routes: Vec<(String, Endpoint)>,
}

impl View for ExtensionRouter {
    type V = Seq<(Seq<char>, Endpoint)>;

    open spec fn view(&self) -> Seq<(Seq<char>, Endpoint)> {
        Seq::new(self.routes@.len(), |i: int| (self.routes@[i].0@, self.routes@[i].1))
    }
}

/// The echo endpoint of the core extension.
pub struct Echo;

impl Echo {
    /// Answers with the arguments it was given.
    pub fn handle(&self, _extension: &Core, params: ResolvedArguments) -> (r: ResolvedArguments)
        ensures
            r@ == params@,
    {
        params
    }
}

impl ExtensionRouter {
    /// A router with no routes.
    pub fn new() -> (r: ExtensionRouter)
        ensures
            r@ == Seq::<(Seq<char>, Endpoint)>::empty(),
    {
        let r = ExtensionRouter { routes: Vec::new() };
        assert(r@ =~= Seq::empty());
        r
    }

    /// This router with `endpoint` added under `name`, before the routes
    /// already present, so that it takes over that name.
    pub fn register(self, name: String, endpoint: Endpoint) -> (r: ExtensionRouter)
        ensures
            route_of(r@, name@) == Some(endpoint),
            forall|other: Seq<char>| other != name@ ==> route_of(r@, other) == route_of(self@, other),
    {
        let ghost before = self@;
        let mut routes: Vec<(String, Endpoint)> = Vec::new();
        let ghost key = name@;
        routes.push((name, endpoint));
        let mut i: usize = 0;
        while i < self.routes.len()
            invariant
                before == self@,
                i <= self.routes.len(),
                routes@.len() == i + 1,
                routes@[0].0@ == key,
                routes@[0].1 == endpoint,
                forall|k: int|
                    0 <= k < i ==> (#[trigger] routes@[k + 1]).0@ == self.routes@[k].0@
                        && routes@[k + 1].1 == self.routes@[k].1,
            decreases self.routes.len() - i,
        {
            routes.push((self.routes[i].0.clone(), self.routes[i].1));
            i = i + 1;
        }
        let r = ExtensionRouter { routes };
        assert(r@.drop_first() =~= before);
        r
    }

    /// Runs the endpoint registered under `method`; `None` where there is
    /// none.
    pub fn handle(&self, extension: &Core, method: &String, params: ResolvedArguments) -> (r: Option<
        ResolvedArguments,
    >)
        ensures
            r matches Some(out) ==> route_of(self@, method@) matches Some(e) && out@
                == endpoint_result(e, params@),
            r is None ==> route_of(self@, method@) is None,
    {
        let ghost model = self@;
        assert(model.subrange(0, model.len() as int) =~= model);
        let mut i: usize = 0;
        while i < self.routes.len()
            invariant
                model == self@,
                i <= self.routes.len(),
                route_of(model, method@) == route_of(
                    model.subrange(i as int, model.len() as int),
                    method@,
                ),
            decreases self.routes.len() - i,
        {
            let ghost rest = model.subrange(i as int, model.len() as int);
            assert(rest[0] == (self.routes@[i as int].0@, self.routes@[i as int].1));
            if self.routes[i].0 == *method {
                return match self.routes[i].1 {
                    Endpoint::Echo => Some(Echo.handle(extension, params)),
                };
            }
            assert(rest.drop_first() =~= model.subrange(i + 1, model.len() as int));
            i = i + 1;
        }
        None
    }
}

impl Default for ExtensionRouter {
    /// A router with no routes.
    fn default() -> (r: ExtensionRouter)
        ensures
            r@ == Seq::<(Seq<char>, Endpoint)>::empty(),
    {
        ExtensionRouter::new()
    }
}

/// The namespace under which the core extension's endpoints are reached.
pub open spec fn core_namespace() -> Seq<char> {
    "Core"@
}

/// Where a method name leads: its namespace before the first `/`, the
/// endpoint after it. Only the core namespace has routes.
pub open spec fn dispatch(
    core_routes: Seq<(Seq<char>, Endpoint)>,
    method: Seq<char>,
    params: Seq<(Seq<char>, JsonView)>,
) -> Option<Seq<(Seq<char>, JsonView)>> {
    match split_once_spec(method, '/') {
        Some((namespace, endpoint)) => if namespace == core_namespace() {
            match route_of(core_routes, endpoint) {
                Some(e) => Some(endpoint_result(e, params)),
                None => None,
            }
        } else {
            None
        },
        None => None,
    }
}

/// The routers of all extensions, by namespace.
pub struct ExtensionRouterRegistry {
    pub core: ExtensionRouter,
}

impl ExtensionRouterRegistry {
    /// Runs the handler that `uri` names (`Namespace/endpoint`); `None`
    /// where the namespace or the endpoint is unknown.
    pub fn handle(&self, uri: &String, registry: &ExtensionRegistry, params: ResolvedArguments) -> (r:
        Option<ResolvedArguments>)
        ensures
            r matches Some(out) ==> dispatch(self.core@, uri@, params@) == Some(out@),
            r is None ==> dispatch(self.core@, uri@, params@) is None,
    {
        proof {
            reveal_strlit("Core");
        }
        match split_once(uri, '/') {
            Some((namespace, endpoint)) => {
                if namespace == String::from_str("Core") {
                    self.core.handle(&registry.core, &endpoint, params)
                } else {
                    None
                }
            },
            None => None,
        }
    }
}

/// The core extension: `urn:ietf:params:jmap:core`.
pub struct Core {
    pub core_capabilities: CoreCapabilities,
}

/// The JSON form of the core capability for the configured limits, with
/// no collation algorithms.
pub open spec fn limits_json(c: CoreCapabilities) -> JsonView {
    JsonView::Object(
        seq![
            number_member("maxSizeUpload"@, c.max_size_upload),
            number_member("maxConcurrentUpload"@, c.max_concurrent_upload),
            number_member("maxSizeRequest"@, c.max_size_request),
            number_member("maxConcurrentRequests"@, c.max_concurrent_requests),
            number_member("maxCallsInRequest"@, c.max_calls_in_request),
            number_member("maxObjectsInGet"@, c.max_objects_in_get),
            number_member("maxObjectsInSet"@, c.max_objects_in_set),
            MemberView { key: "collationAlgorithms"@, value: JsonView::Array(Seq::empty()) },
        ],
    )
}

impl Core {
    /// The capability URI of this extension.
    pub fn extension() -> (r: String)
        ensures
            r@ == "urn:ietf:params:jmap:core"@,
    {
        String::from_str("urn:ietf:params:jmap:core")
    }

    /// The routes of this extension: `echo`.
    pub fn router(&self) -> (r: ExtensionRouter)
        ensures
            route_of(r@, "echo"@) == Some(Endpoint::Echo),
            forall|other: Seq<char>| other != "echo"@ ==> route_of(r@, other) is None,
    {
        ExtensionRouter::new().register(String::from_str("echo"), Endpoint::Echo)
    }

    /// The session capability of this extension: the configured limits,
    /// and no collation algorithms.
    pub fn build(&self, _user: u128) -> (r: CoreCapability)
        ensures
            r.max_size_upload == UnsignedInt(self.core_capabilities.max_size_upload),
            r.max_concurrent_upload == UnsignedInt(self.core_capabilities.max_concurrent_upload),
            r.max_size_request == UnsignedInt(self.core_capabilities.max_size_request),
            r.max_concurrent_requests == UnsignedInt(self.core_capabilities.max_concurrent_requests),
            r.max_calls_in_request == UnsignedInt(self.core_capabilities.max_calls_in_request),
            r.max_objects_in_get == UnsignedInt(self.core_capabilities.max_objects_in_get),
            r.max_objects_in_set == UnsignedInt(self.core_capabilities.max_objects_in_set),
            r.collation_algorithms@.len() == 0,
    {
        CoreCapability {
            max_size_upload: UnsignedInt::from(self.core_capabilities.max_size_upload),
            max_concurrent_upload: UnsignedInt::from(self.core_capabilities.max_concurrent_upload),
            max_size_request: UnsignedInt::from(self.core_capabilities.max_size_request),
            max_concurrent_requests: UnsignedInt::from(
                self.core_capabilities.max_concurrent_requests,
            ),
            max_calls_in_request: UnsignedInt::from(self.core_capabilities.max_calls_in_request),
            max_objects_in_get: UnsignedInt::from(self.core_capabilities.max_objects_in_get),
            max_objects_in_set: UnsignedInt::from(self.core_capabilities.max_objects_in_set),
            collation_algorithms: Vec::new(),
        }
    }
}

/// The contacts extension: `urn:ietf:params:jmap:contacts`.
pub struct Contacts {}

impl Contacts {
    /// The capability URI of this extension.
    pub fn extension() -> (r: String)
        ensures
            r@ == "urn:ietf:params:jmap:contacts"@,
    {
        String::from_str("urn:ietf:params:jmap:contacts")
    }
}

/// The contacts capability of an account.
pub struct ContactMetadata {
    pub may_create_address_book: bool,
}

/// What a user may do with an address book.
pub struct AddressBookRights {
    pub may_read: bool,
    pub may_write: bool,
    pub may_admin: bool,
    pub may_delete: bool,
}

/// The principals extension: `urn:ietf:params:jmap:principals`.
pub struct Principals {}

/// The session capability of the principals extension; it has no fields.
pub struct PrincipalsSessionCapabilities {}

/// The principals capability of an account.
pub struct PrincipalsAccountCapabilities {
    /// The principal that the user is, where it is known.
    pub current_user_principal_id: Option<Id>,
}

/// The capability of an account that a principal owns.
pub struct PrincipalsOwnerAccountCapabilities {
    pub account_id_for_principal: Id,
    pub principal_id: Id,
}

impl Principals {
    /// The capability URI of this extension.
    pub fn extension() -> (r: String)
        ensures
            r@ == "urn:ietf:params:jmap:principals"@,
    {
        String::from_str("urn:ietf:params:jmap:principals")
    }

    /// The session capability of this extension.
    pub fn build(&self, _user: u128) -> (r: PrincipalsSessionCapabilities) {
        PrincipalsSessionCapabilities {}
    }

    /// The account capability of this extension: the user's principal is
    /// not known.
    pub fn build_account(&self, _user: u128, _account: u128) -> (r: PrincipalsAccountCapabilities)
        ensures
            r.current_user_principal_id is None,
    {
        PrincipalsAccountCapabilities { current_user_principal_id: None }
    }
}

/// The kind of a principal.
#[derive(Clone, Copy, Debug, PartialEq, Eq, Structural)]
pub enum PrincipalType {
    Individual,
    Group,
    Resource,
    Location,
    Other,
}

/// Someone who changed something, as a share notification names them.
pub struct Person {
    pub name: String,
    pub email: Option<String>,
    pub principal: Option<String>,
}

/// The principals owner capability: `urn:ietf:params:jmap:principals:owner`.
/// It appears in account capabilities only.
pub struct PrincipalsOwner {}

impl PrincipalsOwner {
    /// The capability URI of this extension.
    pub fn extension() -> (r: String)
        ensures
            r@ == "urn:ietf:params:jmap:principals:owner"@,
    {
        String::from_str("urn:ietf:params:jmap:principals:owner")
    }

    /// The account capability of this extension.
    pub fn build_account(&self, _user: u128, _account: u128) -> (r:
        PrincipalsOwnerAccountCapabilities)
        ensures
            r.account_id_for_principal.0@ == "test"@,
            r.principal_id.0@ == "test"@,
    {
        PrincipalsOwnerAccountCapabilities {
            account_id_for_principal: Id(String::from_str("test")),
            principal_id: Id(String::from_str("test")),
        }
    }
}

/// Every extension the server offers.
pub struct ExtensionRegistry {
    pub core: Core,
    pub contacts: Contacts,
    pub sharing_principals: Principals,
    pub sharing_principals_owner: PrincipalsOwner,
}

/// The session capabilities: the core capability with its limits, and the
/// principals capability, which has no fields.
pub open spec fn session_capabilities(c: CoreCapabilities) -> Seq<(Seq<char>, JsonView)> {
    seq![
        ("urn:ietf:params:jmap:core"@, limits_json(c)),
        ("urn:ietf:params:jmap:principals"@, JsonView::Object(Seq::empty())),
    ]
}

impl ExtensionRegistry {
    /// The registry of all extensions, with the given limits.
    pub fn new(core_capabilities: CoreCapabilities) -> (r: ExtensionRegistry)
        ensures
            r.core.core_capabilities == core_capabilities,
    {
        ExtensionRegistry {
            core: Core { core_capabilities },
            contacts: Contacts {},
            sharing_principals: Principals {},
            sharing_principals_owner: PrincipalsOwner {},
        }
    }

    /// The capability URIs and metadata that the session resource
    /// advertises to `user`.
    pub fn build_session_capabilities(&self, user: u128) -> (r: Vec<(String, Json)>)
        ensures
            Seq::new(r@.len(), |i: int| (r@[i].0@, r@[i].1@)) == session_capabilities(
                self.core.core_capabilities,
            ),
    {
        let core = self.core.build(user);
        let _principals = self.sharing_principals.build(user);
        let core_json = core.to_json();
        let empty: Vec<crate::json::Member> = Vec::new();
        proof {
            lemma_object_members(empty);
            assert(members_model(empty@) =~= Seq::empty());
            let a = core_capability_json(core)->Object_0;
            let b = limits_json(self.core.core_capabilities)->Object_0;
            assert(a[7].value->Array_0 =~= Seq::<JsonView>::empty());
            assert(a =~= b);
        }
        let mut r: Vec<(String, Json)> = Vec::new();
        r.push((Core::extension(), core_json));
        r.push((Principals::extension(), Json::Object(empty)));
        assert(Seq::new(r@.len(), |i: int| (r@[i].0@, r@[i].1@)) =~= session_capabilities(
            self.core.core_capabilities,
        ));
        r
    }

    /// The routers of all extensions.
    pub fn build_router_registry(&self) -> (r: ExtensionRouterRegistry)
        ensures
            route_of(r.core@, "echo"@) == Some(Endpoint::Echo),
            forall|other: Seq<char>| other != "echo"@ ==> route_of(r.core@, other) is None,
    {
        ExtensionRouterRegistry { core: self.core.router() }
    }
}

} // verus!
