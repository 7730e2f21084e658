//! A JSON document tree owned by the library.
use vstd::prelude::*;

verus! {

/// A JSON value. Numbers keep their literal text, so that no value is
/// rounded on its way through the library.
pub enum Json {
    Null,
    Bool(bool),
    Number(String),
    Str(String),
    Array(Vec<Json>),
    Object(Vec<Member>),
}

/// One key and its value inside a JSON object.
pub struct Member {
    pub key: String,
    pub value: Json,
}

/// The mathematical model of a JSON value.
pub enum JsonView {
    Null,
    Bool(bool),
    Number(Seq<char>),
    Str(Seq<char>),
    Array(Seq<JsonView>),
    Object(Seq<MemberView>),
}

/// The model of one object member.
pub struct MemberView {
    pub key: Seq<char>,
    pub value: JsonView,
}

impl View for Member {
    type V = MemberView;

    open spec fn view(&self) -> MemberView
        decreases self,
    {
        MemberView { key: self.key@, value: self.value.view() }
    }
}

impl View for Json {
    type V = JsonView;

    open spec fn view(&self) -> JsonView
        decreases self,
    {
        match self {
            Json::Null => JsonView::Null,
            Json::Bool(b) => JsonView::Bool(*b),
            Json::Number(n) => JsonView::Number(n@),
            Json::Str(s) => JsonView::Str(s@),
            Json::Array(items) => JsonView::Array(
                Seq::new(
                    items@.len(),
                    |i: int|
                        if 0 <= i < items@.len() {
                            items@[i].view()
                        } else {
                            JsonView::Null
                        },
                ),
            ),
            Json::Object(entries) => JsonView::Object(
                Seq::new(
                    entries@.len(),
                    |i: int|
                        if 0 <= i < entries@.len() {
                            entries@[i].view()
                        } else {
                            MemberView { key: Seq::empty(), value: JsonView::Null }
                        },
                ),
            ),
        }
    }
}


/// The value stored under `key` in the entries of an object: the first
/// entry that carries that key wins.
pub open spec fn member_value(entries: Seq<MemberView>, key: Seq<char>) -> Option<JsonView>
    decreases entries.len(),
{
    if entries.len() == 0 {
        None
    } else if entries[0].key == key {
        Some(entries[0].value)
    } else {
        member_value(entries.drop_first(), key)
    }
}

/// Whether `s` is an unsigned decimal integer written without superfluous
/// leading zeros (`0`, `7`, `42`, but not `007` or ``).
pub open spec fn is_index_text(s: Seq<char>) -> bool {
    &&& s.len() > 0
    &&& forall|i: int| 0 <= i < s.len() ==> '0' <= #[trigger] s[i] <= '9'
    &&& (s[0] == '0' ==> s.len() == 1)
}

/// The number that a decimal text denotes.
pub open spec fn decimal_value(s: Seq<char>) -> nat
    decreases s.len(),
{
    if s.len() == 0 {
        0
    } else {
        decimal_value(s.drop_last()) * 10 + (s.last() as nat - '0' as nat) as nat
    }
}

/// The model of an array lists the models of its items.
pub proof fn lemma_array_view(j: Json)
    requires
        j is Array,
    ensures
        j@ is Array,
        j@->Array_0.len() == j->Array_0@.len(),
        forall|k: int|
            0 <= k < j->Array_0@.len() ==> j@->Array_0[k] == (#[trigger] j->Array_0@[k])@,
{
}

/// The model of an object lists the keys and models of its members.
pub proof fn lemma_object_view(j: Json)
    requires
        j is Object,
    ensures
        j@ is Object,
        j@->Object_0.len() == j->Object_0@.len(),
        forall|k: int|
            0 <= k < j->Object_0@.len() ==> j@->Object_0[k] == (#[trigger] j->Object_0@[k])@,
{
}

/// The models of a list of members.
pub open spec fn members_model(ms: Seq<Member>) -> Seq<MemberView> {
    Seq::new(ms.len(), |i: int| ms[i]@)
}

/// The model of an object is the model of its members.
pub proof fn lemma_object_members(ms: Vec<Member>)
    ensures
        Json::Object(ms)@ == JsonView::Object(members_model(ms@)),
{
    lemma_object_view(Json::Object(ms));
    assert(Json::Object(ms)@->Object_0 =~= members_model(ms@));
}

/// The value of the first member of `ms` whose key is `key`.
pub fn get_member<'a>(ms: &'a Vec<Member>, key: &String) -> (r: Option<&'a Json>)
    ensures
        r matches Some(v) ==> member_value(members_model(ms@), key@) == Some(v@),
        r is None ==> member_value(members_model(ms@), key@) is None,
{
    let ghost model = members_model(ms@);
    assert(model.subrange(0, model.len() as int) =~= model);
    let mut i: usize = 0;
    while i < ms.len()
        invariant
            model == members_model(ms@),
            i <= ms.len(),
            member_value(model, key@) == member_value(model.subrange(i as int, model.len() as int), key@),
        decreases ms.len() - i,
    {
        let ghost rest = model.subrange(i as int, model.len() as int);
        assert(rest[0] == ms@[i as int]@);
        if ms[i].key == *key {
            return Some(&ms[i].value);
        }
        assert(rest.drop_first() =~= model.subrange(i + 1, model.len() as int));
        i = i + 1;
    }
    None
}

impl Json {
    /// A copy of this value, node for node.
    pub fn copy(&self) -> (r: Json)
        ensures
            r@ == self@,
        decreases self,
    {
        match self {
            Json::Null => Json::Null,
            Json::Bool(b) => Json::Bool(*b),
            Json::Number(n) => Json::Number(n.clone()),
            Json::Str(s) => Json::Str(s.clone()),
            Json::Array(items) => {
                let mut out: Vec<Json> = Vec::new();
                let mut i: usize = 0;
                while i < items.len()
                    invariant
                        *self == Json::Array(*items),
                        i <= items.len(),
                        out@.len() == i,
                        forall|k: int| 0 <= k < i ==> (#[trigger] out@[k])@ == items@[k]@,
                    decreases items.len() - i,
                {
                    proof {
                        assert(decreases_to!(*self => self->Array_0));
                        assert(decreases_to!(*items => items[i as int]));
                    }
                    let c = items[i].copy();
                    out.push(c);
                    i = i + 1;
                }
                let r = Json::Array(out);
                proof {
                    lemma_array_view(r);
                    lemma_array_view(*self);
                    if let (JsonView::Array(a), JsonView::Array(b)) = (r@, self@) {
                        assert(a =~= b);
                    }
                }
                r
            },
            Json::Object(entries) => {
                let mut out: Vec<Member> = Vec::new();
                let mut i: usize = 0;
                while i < entries.len()
                    invariant
                        *self == Json::Object(*entries),
                        i <= entries.len(),
                        out@.len() == i,
                        forall|k: int|
                            0 <= k < i ==> (#[trigger] out@[k]).key@ == entries@[k].key@
                                && out@[k].value@ == entries@[k].value@,
                    decreases entries.len() - i,
                {
                    proof {
                        assert(decreases_to!(*self => self->Object_0));
                        assert(decreases_to!(*entries => entries[i as int]));

                    }
                    let v = entries[i].value.copy();
                    out.push(Member { key: entries[i].key.clone(), value: v });
                    i = i + 1;
                }
                let r = Json::Object(out);
                proof {
                    lemma_object_view(r);
                    lemma_object_view(*self);
                    if let (JsonView::Object(a), JsonView::Object(b)) = (r@, self@) {
                        assert forall|k: int| 0 <= k < a.len() implies a[k] == b[k] by {
                            assert(out@[k].key@ == entries@[k].key@);
                        }
                        assert(a =~= b);
                    }
                }
                r
            },
        }
    }
}

} // verus!
