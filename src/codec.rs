//! The envelope: invocations, their arguments, requests and responses, and
//! their encoding as JSON trees.
use vstd::prelude::*;
use vstd::string::*;

use crate::common::{Id, SessionState};
use crate::json::{
    get_member, lemma_array_view, lemma_object_members, member_value, members_model, Json,
    JsonView, Member, MemberView,
};
use crate::util::{has_prefix, strip_prefix_from_cow};

verus! {

/// A pointer into the result of an earlier call of the same request.
pub struct ResultReference {
    /// The call id of the earlier call.
    pub result_of: String,
    /// The name that the earlier call's response must carry.
    pub name: String,
    /// A JSON pointer into that response's arguments, where `*` maps the
    /// rest of the path over the items of an array.
    pub path: String,
}

/// The model of a result reference.
pub struct ReferenceView {
    pub result_of: Seq<char>,
    pub name: Seq<char>,
    pub path: Seq<char>,
}

impl View for ResultReference {
    type V = ReferenceView;

    open spec fn view(&self) -> ReferenceView {
        ReferenceView { result_of: self.result_of@, name: self.name@, path: self.path@ }
    }
}

/// An argument of a call: a literal value, or a reference to the result of
/// an earlier call.
pub enum Argument {
    Reference(ResultReference),
    Absolute(Json),
}

/// The model of an argument.
pub enum ArgumentView {
    Reference(ReferenceView),
    Absolute(JsonView),
}

impl View for Argument {
    type V = ArgumentView;

    open spec fn view(&self) -> ArgumentView {
        match self {
            Argument::Reference(r) => ArgumentView::Reference(r@),
            Argument::Absolute(v) => ArgumentView::Absolute(v@),
        }
    }
}

/// The named arguments of a call, in order, each name at most once.
pub struct Arguments(pub Vec<(String, Argument)>);

impl View for Arguments {
    type V = Seq<(Seq<char>, ArgumentView)>;

    open spec fn view(&self) -> Seq<(Seq<char>, ArgumentView)> {
        Seq::new(self.0@.len(), |i: int| (self.0@[i].0@, self.0@[i].1@))
    }
}

/// A method call or a method response: a name, arguments, and the call id
/// that the client chose.
pub struct Invocation {
    pub name: String,
    pub arguments: Arguments,
    pub call_id: String,
}

/// The model of an invocation.
pub struct InvocationView {
    pub name: Seq<char>,
    pub arguments: Seq<(Seq<char>, ArgumentView)>,
    pub call_id: Seq<char>,
}

impl View for Invocation {
    type V = InvocationView;

    open spec fn view(&self) -> InvocationView {
        InvocationView { name: self.name@, arguments: self.arguments@, call_id: self.call_id@ }
    }
}

/// The model of a request.
pub struct RequestView {
    pub using: Seq<Seq<char>>,
    pub method_calls: Seq<InvocationView>,
    pub created_ids: Option<Seq<(Seq<char>, Seq<char>)>>,
}

/// The model of a list of creation id pairs.
pub open spec fn id_pairs_model(ids: Seq<(Id, Id)>) -> Seq<(Seq<char>, Seq<char>)> {
    Seq::new(ids.len(), |i: int| (ids[i].0.0@, ids[i].1.0@))
}

pub open spec fn created_ids_model(ids: Option<Vec<(Id, Id)>>) -> Option<
    Seq<(Seq<char>, Seq<char>)>,
> {
    match ids {
        Some(ids) => Some(id_pairs_model(ids@)),
        None => None,
    }
}

pub open spec fn strings_model(v: Seq<String>) -> Seq<Seq<char>> {
    Seq::new(v.len(), |i: int| v[i]@)
}

pub open spec fn invocations_model(v: Seq<Invocation>) -> Seq<InvocationView> {
    Seq::new(v.len(), |i: int| v[i]@)
}

/// A batch of method calls sent by a client.
pub struct Request {
    /// The capabilities the client wishes to use.
    pub using: Vec<String>,
    /// The calls, processed in this order.
    pub method_calls: Vec<Invocation>,
    /// Client creation ids and the server ids they were given.
    pub created_ids: Option<Vec<(Id, Id)>>,
}

impl View for Request {
    type V = RequestView;

    open spec fn view(&self) -> RequestView {
        RequestView {
            using: strings_model(self.using@),
            method_calls: invocations_model(self.method_calls@),
            created_ids: created_ids_model(self.created_ids),
        }
    }
}

/// The answer to a request: one response per call, in the calls' order.
pub struct Response {
    pub method_responses: Vec<Invocation>,
    pub created_ids: Option<Vec<(Id, Id)>>,
    pub session_state: SessionState,
}

// ---------------------------------------------------------------------------
// The encoding, stated over the models.

pub open spec fn key_result_of() -> Seq<char> {
    "resultOf"@
}

pub open spec fn key_name() -> Seq<char> {
    "name"@
}

pub open spec fn key_path() -> Seq<char> {
    "path"@
}

/// The prefix that marks a reference argument's name on the wire.
pub open spec fn reference_mark() -> Seq<char> {
    "#"@
}

pub open spec fn encode_reference(r: ReferenceView) -> JsonView {
    JsonView::Object(
        seq![
            MemberView { key: key_result_of(), value: JsonView::Str(r.result_of) },
            MemberView { key: key_name(), value: JsonView::Str(r.name) },
            MemberView { key: key_path(), value: JsonView::Str(r.path) },
        ],
    )
}

pub open spec fn encode_member(name: Seq<char>, a: ArgumentView) -> MemberView {
    match a {
        ArgumentView::Reference(r) => MemberView {
            key: reference_mark() + name,
            value: encode_reference(r),
        },
        ArgumentView::Absolute(v) => MemberView { key: name, value: v },
    }
}

pub open spec fn encode_members(args: Seq<(Seq<char>, ArgumentView)>) -> Seq<MemberView> {
    Seq::new(args.len(), |i: int| encode_member(args[i].0, args[i].1))
}

/// Arguments on the wire: an object with one member per argument.
pub open spec fn encode_arguments(args: Seq<(Seq<char>, ArgumentView)>) -> JsonView {
    JsonView::Object(encode_members(args))
}

/// An invocation on the wire: `[name, arguments, call id]`.
pub open spec fn encode_invocation(inv: InvocationView) -> JsonView {
    JsonView::Array(
        seq![
            JsonView::Str(inv.name),
            encode_arguments(inv.arguments),
            JsonView::Str(inv.call_id),
        ],
    )
}

pub open spec fn string_member(members: Seq<MemberView>, key: Seq<char>) -> Option<Seq<char>> {
    match member_value(members, key) {
        Some(JsonView::Str(s)) => Some(s),
        _ => None,
    }
}

/// A reference on the wire: an object whose `resultOf`, `name` and `path`
/// members are strings; other members are ignored.
pub open spec fn decode_reference(v: JsonView) -> Option<ReferenceView> {
    match v {
        JsonView::Object(ms) => match (
            string_member(ms, key_result_of()),
            string_member(ms, key_name()),
            string_member(ms, key_path()),
        ) {
            (Some(a), Some(b), Some(c)) => Some(ReferenceView { result_of: a, name: b, path: c }),
            _ => None,
        },
        _ => None,
    }
}

/// One member of an arguments object: a key that begins with `#` names a
/// reference, any other key a literal value.
pub open spec fn decode_member(m: MemberView) -> Option<(Seq<char>, ArgumentView)> {
    if has_prefix(m.key, reference_mark()) {
        match decode_reference(m.value) {
            Some(r) => Some((m.key.drop_first(), ArgumentView::Reference(r))),
            None => None,
        }
    } else {
        Some((m.key, ArgumentView::Absolute(m.value)))
    }
}

/// The position of the first argument called `name`.
pub open spec fn argument_index(args: Seq<(Seq<char>, ArgumentView)>, name: Seq<char>) -> Option<
    nat,
>
    decreases args.len(),
{
    if args.len() == 0 {
        None
    } else if args[0].0 == name {
        Some(0)
    } else {
        match argument_index(args.drop_first(), name) {
            Some(i) => Some(i + 1),
            None => None,
        }
    }
}

/// Sets argument `name`: in place where it is present, at the end where not.
pub open spec fn put_argument(
    args: Seq<(Seq<char>, ArgumentView)>,
    name: Seq<char>,
    a: ArgumentView,
) -> Seq<(Seq<char>, ArgumentView)> {
    match argument_index(args, name) {
        Some(i) => args.update(i as int, (name, a)),
        None => args.push((name, a)),
    }
}

/// The members of an arguments object, read in order; of two members with
/// the same name the later one wins.
pub open spec fn decode_members(ms: Seq<MemberView>) -> Option<Seq<(Seq<char>, ArgumentView)>>
    decreases ms.len(),
{
    if ms.len() == 0 {
        Some(Seq::empty())
    } else {
        match decode_members(ms.drop_last()) {
            None => None,
            Some(acc) => match decode_member(ms.last()) {
                None => None,
                Some(e) => Some(put_argument(acc, e.0, e.1)),
            },
        }
    }
}

pub open spec fn decode_arguments(v: JsonView) -> Option<Seq<(Seq<char>, ArgumentView)>> {
    match v {
        JsonView::Object(ms) => decode_members(ms),
        _ => None,
    }
}

/// An invocation from the wire: an array of exactly three items, a string
/// name, an arguments object and a string call id.
pub open spec fn decode_invocation(v: JsonView) -> Option<InvocationView> {
    match v {
        JsonView::Array(xs) => if xs.len() == 3 {
            match (xs[0], decode_arguments(xs[1]), xs[2]) {
                (JsonView::Str(n), Some(args), JsonView::Str(c)) => Some(
                    InvocationView { name: n, arguments: args, call_id: c },
                ),
                _ => None,
            }
        } else {
            None
        },
        _ => None,
    }
}

pub open spec fn key_using() -> Seq<char> {
    "using"@
}

pub open spec fn key_method_calls() -> Seq<char> {
    "methodCalls"@
}

pub open spec fn key_created_ids() -> Seq<char> {
    "createdIds"@
}

pub open spec fn key_method_responses() -> Seq<char> {
    "methodResponses"@
}

pub open spec fn key_session_state() -> Seq<char> {
    "sessionState"@
}

/// A list of strings from the wire.
pub open spec fn decode_strings(v: JsonView) -> Option<Seq<Seq<char>>> {
    match v {
        JsonView::Array(xs) => if forall|i: int| 0 <= i < xs.len() ==> #[trigger] xs[i] is Str {
            Some(Seq::new(xs.len(), |i: int| xs[i]->Str_0))
        } else {
            None
        },
        _ => None,
    }
}

/// A list of invocations from the wire.
pub open spec fn decode_invocations(v: JsonView) -> Option<Seq<InvocationView>> {
    match v {
        JsonView::Array(xs) => if forall|i: int|
            0 <= i < xs.len() ==> #[trigger] decode_invocation(xs[i]) is Some {
            Some(Seq::new(xs.len(), |i: int| decode_invocation(xs[i])->Some_0))
        } else {
            None
        },
        _ => None,
    }
}

/// A map of ids from the wire: an object whose members are all strings.
pub open spec fn decode_id_map(v: JsonView) -> Option<Seq<(Seq<char>, Seq<char>)>> {
    match v {
        JsonView::Object(ms) => if forall|i: int| 0 <= i < ms.len() ==> #[trigger] ms[i].value is Str {
            Some(Seq::new(ms.len(), |i: int| (ms[i].key, ms[i].value->Str_0)))
        } else {
            None
        },
        _ => None,
    }
}

/// A request from the wire: an object with a `using` list of strings, a
/// `methodCalls` list of invocations, and `createdIds`, which may be absent
/// or null.
pub open spec fn decode_request(v: JsonView) -> Option<RequestView> {
    match v {
        JsonView::Object(ms) => match (
            member_value(ms, key_using()),
            member_value(ms, key_method_calls()),
            member_value(ms, key_created_ids()),
        ) {
            (Some(u), Some(c), ids) => match (decode_strings(u), decode_invocations(c)) {
                (Some(using), Some(calls)) => match ids {
                    None | Some(JsonView::Null) => Some(
                        RequestView { using, method_calls: calls, created_ids: None },
                    ),
                    Some(m) => match decode_id_map(m) {
                        Some(pairs) => Some(
                            RequestView { using, method_calls: calls, created_ids: Some(pairs) },
                        ),
                        None => None,
                    },
                },
                _ => None,
            },
            _ => None,
        },
        _ => None,
    }
}

pub open spec fn encode_id_map(ids: Seq<(Seq<char>, Seq<char>)>) -> JsonView {
    JsonView::Object(
        Seq::new(ids.len(), |i: int| MemberView { key: ids[i].0, value: JsonView::Str(ids[i].1) }),
    )
}

/// A response on the wire: `methodResponses`, then `createdIds` where there
/// are any, then `sessionState`.
pub open spec fn encode_response(
    responses: Seq<InvocationView>,
    created_ids: Option<Seq<(Seq<char>, Seq<char>)>>,
    session_state: Seq<char>,
) -> JsonView {
    let calls = MemberView {
        key: key_method_responses(),
        value: JsonView::Array(Seq::new(responses.len(), |i: int| encode_invocation(responses[i]))),
    };
    let state = MemberView { key: key_session_state(), value: JsonView::Str(session_state) };
    match created_ids {
        Some(ids) => JsonView::Object(
            seq![calls, MemberView { key: key_created_ids(), value: encode_id_map(ids) }, state],
        ),
        None => JsonView::Object(seq![calls, state]),
    }
}

/// Arguments whose names are distinct, and where no literal argument's
/// name begins with `#` (such a name would read back as a reference).
pub open spec fn arguments_well_formed(args: Seq<(Seq<char>, ArgumentView)>) -> bool {
    &&& forall|i: int, j: int| 0 <= i < j < args.len() ==> args[i].0 != args[j].0
    &&& forall|i: int|
        0 <= i < args.len() ==> (#[trigger] args[i].1 is Absolute) ==> !has_prefix(
            args[i].0,
            reference_mark(),
        )
}


proof fn lemma_reference_round_trip(r: ReferenceView)
    ensures
        decode_reference(encode_reference(r)) == Some(r),
{
    reveal_strlit("resultOf");
    reveal_strlit("name");
    reveal_strlit("path");
    let ms = encode_reference(r)->Object_0;
    reveal_with_fuel(member_value, 3);
    assert(key_result_of().len() == 8);
    assert(key_name().len() == 4);
    assert(key_path().len() == 4);
    assert(key_name()[0] != key_path()[0]);
    assert(ms.drop_first()[0] == ms[1]);
    assert(ms.drop_first().drop_first()[0] == ms[2]);
    assert(string_member(ms, key_result_of()) == Some(r.result_of));
    assert(string_member(ms, key_name()) == Some(r.name));
    assert(string_member(ms, key_path()) == Some(r.path));
}

proof fn lemma_member_round_trip(name: Seq<char>, a: ArgumentView)
    requires
        a is Absolute ==> !has_prefix(name, reference_mark()),
    ensures
        decode_member(encode_member(name, a)) == Some((name, a)),
{
    reveal_strlit("#");
    match a {
        ArgumentView::Reference(r) => {
            let key = reference_mark() + name;
            assert(key.subrange(0, 1) =~= reference_mark());
            assert(key.drop_first() =~= name);
            lemma_reference_round_trip(r);
        },
        ArgumentView::Absolute(v) => {},
    }
}

proof fn lemma_argument_index_absent(args: Seq<(Seq<char>, ArgumentView)>, name: Seq<char>)
    requires
        forall|i: int| 0 <= i < args.len() ==> args[i].0 != name,
    ensures
        argument_index(args, name) is None,
    decreases args.len(),
{
    if args.len() > 0 {
        assert(args[0].0 != name);
        let rest = args.drop_first();
        assert forall|i: int| 0 <= i < rest.len() implies rest[i].0 != name by {
            assert(rest[i] == args[i + 1]);
        }
        lemma_argument_index_absent(rest, name);
    }
}

proof fn lemma_members_round_trip(args: Seq<(Seq<char>, ArgumentView)>)
    requires
        arguments_well_formed(args),
    ensures
        decode_members(encode_members(args)) == Some(args),
    decreases args.len(),
{
    let ms = encode_members(args);
    if args.len() > 0 {
        let prefix = args.drop_last();
        assert(ms.drop_last() =~= encode_members(prefix));
        assert forall|i: int|
            0 <= i < prefix.len() && (#[trigger] prefix[i].1 is Absolute) implies !has_prefix(
            prefix[i].0,
            reference_mark(),
        ) by {
            assert(prefix[i] == args[i]);
        }
        lemma_members_round_trip(prefix);
        let last = args.last();
        assert(ms.last() == encode_member(last.0, last.1));
        assert(args[args.len() - 1] == last);
        lemma_member_round_trip(last.0, last.1);
        assert forall|i: int| 0 <= i < prefix.len() implies prefix[i].0 != last.0 by {
            assert(prefix[i] == args[i]);
        }
        lemma_argument_index_absent(prefix, last.0);
        assert(prefix.push((last.0, last.1)) =~= args);
    } else {
        assert(args =~= Seq::empty());
    }
}

/// Encoding an invocation and decoding the result gives the invocation
/// back, for arguments with distinct names where no literal argument's name
/// begins with `#`.
pub proof fn lemma_invocation_round_trip(inv: InvocationView)
    requires
        arguments_well_formed(inv.arguments),
    ensures
        decode_invocation(encode_invocation(inv)) == Some(inv),
{
    lemma_members_round_trip(inv.arguments);
}


/// Once a prefix of the members fails to decode, so do all of them.
proof fn lemma_decode_members_failed(ms: Seq<MemberView>, i: int)
    requires
        0 <= i <= ms.len(),
        decode_members(ms.take(i)) is None,
    ensures
        decode_members(ms) is None,
    decreases ms.len() - i,
{
    if i < ms.len() {
        let next = ms.take(i + 1);
        assert(next.drop_last() =~= ms.take(i));
        lemma_decode_members_failed(ms, i + 1);
    } else {
        assert(ms.take(i) =~= ms);
    }
}

impl ResultReference {
    /// A copy of this reference.
    pub fn copy(&self) -> (r: ResultReference)
        ensures
            r@ == self@,
    {
        ResultReference {
            result_of: self.result_of.clone(),
            name: self.name.clone(),
            path: self.path.clone(),
        }
    }

    /// This reference as it stands on the wire.
    pub fn encode(&self) -> (r: Json)
        ensures
            r@ == encode_reference(self@),
    {
        let mut ms: Vec<Member> = Vec::new();
        ms.push(Member { key: String::from_str("resultOf"), value: Json::Str(self.result_of.clone()) });
        ms.push(Member { key: String::from_str("name"), value: Json::Str(self.name.clone()) });
        ms.push(Member { key: String::from_str("path"), value: Json::Str(self.path.clone()) });
        proof {
            lemma_object_members(ms);
            assert(members_model(ms@) =~= encode_reference(self@)->Object_0);
        }
        Json::Object(ms)
    }

    /// Reads a reference from the wire.
    pub fn decode(v: &Json) -> (r: Option<ResultReference>)
        ensures
            r matches Some(x) ==> decode_reference(v@) == Some(x@),
            r is None ==> decode_reference(v@) is None,
    {
        match v {
            Json::Object(ms) => {
                proof {
                    lemma_object_members(*ms);
                }
                let k1 = String::from_str("resultOf");
                let k2 = String::from_str("name");
                let k3 = String::from_str("path");
                match (get_member(ms, &k1), get_member(ms, &k2), get_member(ms, &k3)) {
                    (Some(Json::Str(a)), Some(Json::Str(b)), Some(Json::Str(c))) => Some(
                        ResultReference { result_of: a.clone(), name: b.clone(), path: c.clone() },
                    ),
                    _ => None,
                }
            },
            _ => None,
        }
    }
}

impl Argument {
    /// A copy of this argument.
    pub fn copy(&self) -> (r: Argument)
        ensures
            r@ == self@,
    {
        match self {
            Argument::Reference(x) => Argument::Reference(x.copy()),
            Argument::Absolute(v) => Argument::Absolute(v.copy()),
        }
    }
}

/// The wire member of one argument.
fn encode_argument(name: &String, a: &Argument) -> (r: Member)
    ensures
        r@ == encode_member(name@, a@),
{
    match a {
        Argument::Reference(x) => {
            let mut key = String::from_str("#");
            key.append(name.as_str());
            Member { key, value: x.encode() }
        },
        Argument::Absolute(v) => Member { key: name.clone(), value: v.copy() },
    }
}

/// Reads one member of an arguments object.
fn decode_argument(m: &Member) -> (r: Option<(String, Argument)>)
    ensures
        r matches Some(e) ==> decode_member(m@) == Some((e.0@, e.1@)),
        r is None ==> decode_member(m@) is None,
{
    proof {
        reveal_strlit("#");
    }
    match strip_prefix_from_cow(m.key.clone(), "#") {
        Some(name) => {
            assert(name@ =~= m.key@.drop_first());
            match ResultReference::decode(&m.value) {
                Some(x) => Some((name, Argument::Reference(x))),
                None => None,
            }
        },
        None => Some((m.key.clone(), Argument::Absolute(m.value.copy()))),
    }
}

impl Arguments {
    /// Sets argument `name`: in place where it is present, at the end where not.
    pub fn put(&mut self, name: String, a: Argument)
        ensures
            final(self)@ == put_argument(old(self)@, name@, a@),
    {
        let ghost args = self@;
        assert(args.subrange(0, args.len() as int) =~= args);
        let mut i: usize = 0;
        while i < self.0.len()
            invariant
                args == self@,
                args == old(self)@,
                i <= self.0.len(),
                argument_index(args, name@) == match argument_index(
                    args.subrange(i as int, args.len() as int),
                    name@,
                ) {
                    Some(k) => Some((k + i) as nat),
                    None => None,
                },
            decreases self.0.len() - i,
        {
            let ghost rest = args.subrange(i as int, args.len() as int);
            assert(rest[0] == args[i as int]);
            if self.0[i].0 == name {
                assert(argument_index(rest, name@) == Some(0nat));
                assert(argument_index(args, name@) == Some(i as nat));
                let ghost pair = (name@, a@);
                self.0.set(i, (name, a));
                assert(self@ =~= args.update(i as int, pair));
                return;
            }
            assert(rest.drop_first() =~= args.subrange(i + 1, args.len() as int));
            i = i + 1;
        }
        assert(args.subrange(i as int, args.len() as int) =~= Seq::empty());
        let ghost pair = (name@, a@);
        self.0.push((name, a));
        assert(self@ =~= args.push(pair));
    }

    /// These arguments as they stand on the wire.
    pub fn encode(&self) -> (r: Json)
        ensures
            r@ == encode_arguments(self@),
    {
        let mut ms: Vec<Member> = Vec::new();
        let mut i: usize = 0;
        while i < self.0.len()
            invariant
                i <= self.0.len(),
                ms@.len() == i,
                forall|k: int|
                    0 <= k < i ==> (#[trigger] ms@[k])@ == encode_member(self@[k].0, self@[k].1),
            decreases self.0.len() - i,
        {
            let m = encode_argument(&self.0[i].0, &self.0[i].1);
            ms.push(m);
            i = i + 1;
        }
        proof {
            lemma_object_members(ms);
            assert(members_model(ms@) =~= encode_members(self@));
        }
        Json::Object(ms)
    }

    /// Reads arguments from the wire.
    pub fn decode(v: &Json) -> (r: Option<Arguments>)
        ensures
            r matches Some(x) ==> decode_arguments(v@) == Some(x@),
            r is None ==> decode_arguments(v@) is None,
    {
        match v {
            Json::Object(ms) => {
                proof {
                    lemma_object_members(*ms);
                }
                let ghost model = members_model(ms@);
                let mut acc = Arguments(Vec::new());
                assert(model.take(0) =~= Seq::<MemberView>::empty());
                assert(acc@ =~= Seq::empty());
                let mut i: usize = 0;
                while i < ms.len()
                    invariant
                        model == members_model(ms@),
                        v@ == JsonView::Object(model),
                        i <= ms.len(),
                        decode_members(model.take(i as int)) == Some(acc@),
                    decreases ms.len() - i,
                {
                    assert(model.take(i + 1).drop_last() =~= model.take(i as int));
                    assert(model.take(i + 1).last() == ms@[i as int]@);
                    match decode_argument(&ms[i]) {
                        Some(e) => {
                            acc.put(e.0, e.1);
                        },
                        None => {
                            proof {
                                assert(decode_members(model.take(i + 1)) is None);
                                lemma_decode_members_failed(model, i + 1);
                            }
                            return None;
                        },
                    }
                    i = i + 1;
                }
                assert(model.take(i as int) =~= model);
                Some(acc)
            },
            _ => None,
        }
    }
}

impl Invocation {
    /// This invocation as it stands on the wire: `[name, arguments, call id]`.
    pub fn encode(&self) -> (r: Json)
        ensures
            r@ == encode_invocation(self@),
    {
        let mut items: Vec<Json> = Vec::new();
        items.push(Json::Str(self.name.clone()));
        items.push(self.arguments.encode());
        items.push(Json::Str(self.call_id.clone()));
        let r = Json::Array(items);
        proof {
            lemma_array_view(r);
            assert(r@->Array_0 =~= encode_invocation(self@)->Array_0);
        }
        r
    }

    /// Reads an invocation from the wire.
    pub fn decode(v: &Json) -> (r: Option<Invocation>)
        ensures
            r matches Some(x) ==> decode_invocation(v@) == Some(x@),
            r is None ==> decode_invocation(v@) is None,
    {
        proof {
            if v is Array {
                lemma_array_view(*v);
            }
        }
        match v {
            Json::Array(items) => {
                if items.len() != 3 {
                    return None;
                }
                match (&items[0], Arguments::decode(&items[1]), &items[2]) {
                    (Json::Str(n), Some(args), Json::Str(c)) => Some(
                        Invocation { name: n.clone(), arguments: args, call_id: c.clone() },
                    ),
                    _ => None,
                }
            },
            _ => None,
        }
    }
}


/// Reads a list of strings.
fn decode_string_list(v: &Json) -> (r: Option<Vec<String>>)
    ensures
        r matches Some(x) ==> decode_strings(v@) == Some(strings_model(x@)),
        r is None ==> decode_strings(v@) is None,
{
    match v {
        Json::Array(xs) => {
            proof {
                lemma_array_view(*v);
            }
            let ghost model = v@->Array_0;
            let mut out: Vec<String> = Vec::new();
            let mut i: usize = 0;
            while i < xs.len()
                invariant
                    model == v@->Array_0,
                    v@ is Array,
                    model.len() == xs@.len(),
                    forall|k: int| 0 <= k < xs@.len() ==> model[k] == (#[trigger] xs@[k])@,
                    i <= xs.len(),
                    out@.len() == i,
                    forall|k: int| 0 <= k < i ==> #[trigger] model[k] is Str,
                    forall|k: int| 0 <= k < i ==> (#[trigger] out@[k])@ == model[k]->Str_0,
                decreases xs.len() - i,
            {
                match &xs[i] {
                    Json::Str(s) => {
                        out.push(s.clone());
                    },
                    _ => {
                        assert(!(model[i as int] is Str));
                        return None;
                    },
                }
                i = i + 1;
            }
            assert(strings_model(out@) =~= Seq::new(model.len(), |k: int| model[k]->Str_0));
            Some(out)
        },
        _ => None,
    }
}

/// Reads a list of invocations.
fn decode_invocation_list(v: &Json) -> (r: Option<Vec<Invocation>>)
    ensures
        r matches Some(x) ==> decode_invocations(v@) == Some(invocations_model(x@)),
        r is None ==> decode_invocations(v@) is None,
{
    match v {
        Json::Array(xs) => {
            proof {
                lemma_array_view(*v);
            }
            let ghost model = v@->Array_0;
            let mut out: Vec<Invocation> = Vec::new();
            let mut i: usize = 0;
            while i < xs.len()
                invariant
                    model == v@->Array_0,
                    v@ is Array,
                    model.len() == xs@.len(),
                    forall|k: int| 0 <= k < xs@.len() ==> model[k] == (#[trigger] xs@[k])@,
                    i <= xs.len(),
                    out@.len() == i,
                    forall|k: int| 0 <= k < i ==> #[trigger] decode_invocation(model[k]) is Some,
                    forall|k: int|
                        0 <= k < i ==> Some((#[trigger] out@[k])@) == decode_invocation(model[k]),
                decreases xs.len() - i,
            {
                match Invocation::decode(&xs[i]) {
                    Some(inv) => {
                        out.push(inv);
                    },
                    None => {
                        assert(decode_invocation(model[i as int]) is None);
                        return None;
                    },
                }
                i = i + 1;
            }
            assert(invocations_model(out@) =~= Seq::new(
                model.len(),
                |k: int| decode_invocation(model[k])->Some_0,
            ));
            Some(out)
        },
        _ => None,
    }
}

/// Reads a map of ids.
fn decode_id_list(v: &Json) -> (r: Option<Vec<(Id, Id)>>)
    ensures
        r matches Some(x) ==> decode_id_map(v@) == Some(id_pairs_model(x@)),
        r is None ==> decode_id_map(v@) is None,
{
    match v {
        Json::Object(ms) => {
            proof {
                lemma_object_members(*ms);
            }
            let ghost model = members_model(ms@);
            let mut out: Vec<(Id, Id)> = Vec::new();
            let mut i: usize = 0;
            while i < ms.len()
                invariant
                    model == members_model(ms@),
                    v@ == JsonView::Object(model),
                    i <= ms.len(),
                    out@.len() == i,
                    forall|k: int| 0 <= k < i ==> #[trigger] model[k].value is Str,
                    forall|k: int|
                        0 <= k < i ==> (#[trigger] out@[k]).0.0@ == model[k].key && out@[k].1.0@
                            == model[k].value->Str_0,
                decreases ms.len() - i,
            {
                assert(model[i as int] == ms@[i as int]@);
                match &ms[i].value {
                    Json::Str(s) => {
                        out.push((Id(ms[i].key.clone()), Id(s.clone())));
                    },
                    _ => {
                        assert(!(model[i as int].value is Str));
                        return None;
                    },
                }
                i = i + 1;
            }
            assert(id_pairs_model(out@) =~= Seq::new(
                model.len(),
                |k: int| (model[k].key, model[k].value->Str_0),
            ));
            Some(out)
        },
        _ => None,
    }
}

impl Request {
    /// Reads a request from the wire.
    pub fn decode(v: &Json) -> (r: Option<Request>)
        ensures
            r matches Some(x) ==> decode_request(v@) == Some(x@),
            r is None ==> decode_request(v@) is None,
    {
        match v {
            Json::Object(ms) => {
                proof {
                    lemma_object_members(*ms);
                }
                let k1 = String::from_str("using");
                let k2 = String::from_str("methodCalls");
                let k3 = String::from_str("createdIds");
                let u = match get_member(ms, &k1) {
                    Some(u) => u,
                    None => return None,
                };
                let c = match get_member(ms, &k2) {
                    Some(c) => c,
                    None => return None,
                };
                let using = match decode_string_list(u) {
                    Some(x) => x,
                    None => return None,
                };
                let method_calls = match decode_invocation_list(c) {
                    Some(x) => x,
                    None => return None,
                };
                let created_ids = match get_member(ms, &k3) {
                    None => None,
                    Some(Json::Null) => None,
                    Some(m) => match decode_id_list(m) {
                        Some(x) => Some(x),
                        None => return None,
                    },
                };
                Some(Request { using, method_calls, created_ids })
            },
            _ => None,
        }
    }
}

/// Writes a map of ids.
fn encode_id_list(ids: &Vec<(Id, Id)>) -> (r: Json)
    ensures
        r@ == encode_id_map(id_pairs_model(ids@)),
{
    let mut ms: Vec<Member> = Vec::new();
    let mut i: usize = 0;
    while i < ids.len()
        invariant
            i <= ids.len(),
            ms@.len() == i,
            forall|k: int|
                0 <= k < i ==> (#[trigger] ms@[k])@ == (MemberView {
                    key: ids@[k].0.0@,
                    value: JsonView::Str(ids@[k].1.0@),
                }),
        decreases ids.len() - i,
    {
        ms.push(Member { key: ids[i].0.0.clone(), value: Json::Str(ids[i].1.0.clone()) });
        i = i + 1;
    }
    proof {
        lemma_object_members(ms);
        assert(members_model(ms@) =~= encode_id_map(id_pairs_model(ids@))->Object_0);
    }
    Json::Object(ms)
}

impl Response {
    /// This response as it stands on the wire.
    pub fn encode(&self) -> (r: Json)
        ensures
            r@ == encode_response(
                invocations_model(self.method_responses@),
                created_ids_model(self.created_ids),
                self.session_state.0@,
            ),
    {
        let mut calls: Vec<Json> = Vec::new();
        let mut i: usize = 0;
        while i < self.method_responses.len()
            invariant
                i <= self.method_responses.len(),
                calls@.len() == i,
                forall|k: int|
                    0 <= k < i ==> (#[trigger] calls@[k])@ == encode_invocation(
                        self.method_responses@[k]@,
                    ),
            decreases self.method_responses.len() - i,
        {
            calls.push(self.method_responses[i].encode());
            i = i + 1;
        }
        let calls = Json::Array(calls);
        proof {
            lemma_array_view(calls);
            assert(calls@->Array_0 =~= Seq::new(
                self.method_responses@.len(),
                |k: int| encode_invocation(invocations_model(self.method_responses@)[k]),
            ));
        }
        let mut ms: Vec<Member> = Vec::new();
        ms.push(Member { key: String::from_str("methodResponses"), value: calls });
        match &self.created_ids {
            Some(ids) => {
                ms.push(Member { key: String::from_str("createdIds"), value: encode_id_list(ids) });
            },
            None => {},
        }
        ms.push(
            Member { key: String::from_str("sessionState"), value: Json::Str(self.session_state.0.clone()) },
        );
        proof {
            lemma_object_members(ms);
        }
        let r = Json::Object(ms);
        proof {
            let expected = encode_response(
                invocations_model(self.method_responses@),
                created_ids_model(self.created_ids),
                self.session_state.0@,
            );
            assert(members_model(ms@) =~= expected->Object_0);
        }
        r
    }
}

} // verus!
