//! Resolution of call arguments: literal values stand as they are, result
//! references are looked up in the responses produced so far and followed
//! along their path.
use vstd::prelude::*;
use vstd::string::*;

use crate::codec::{
    encode_arguments, invocations_model, strings_model, Response, Argument, ArgumentView, Arguments, Invocation, InvocationView,
    ReferenceView, ResultReference,
};
use crate::json::{
    decimal_value, get_member, is_index_text, lemma_array_view, lemma_object_members,
    member_value, Json, JsonView,
};

verus! {

/// The arguments of one call with every reference resolved: each name with
/// its value.
pub struct ResolvedArguments(pub Vec<(String, Json)>);

impl View for ResolvedArguments {
    type V = Seq<(Seq<char>, JsonView)>;

    open spec fn view(&self) -> Seq<(Seq<char>, JsonView)> {
        Seq::new(self.0@.len(), |i: int| (self.0@[i].0@, self.0@[i].1@))
    }
}

/// The first of `responses` with the call id and the name that `r` asks for.
pub open spec fn find_response(responses: Seq<InvocationView>, r: ReferenceView) -> Option<
    InvocationView,
>
    decreases responses.len(),
{
    if responses.len() == 0 {
        None
    } else if responses[0].call_id == r.result_of && responses[0].name == r.name {
        Some(responses[0])
    } else {
        find_response(responses.drop_first(), r)
    }
}

/// The value of one argument: a literal stands as it is; a reference
/// follows its path into the arguments of the response it names.
pub open spec fn resolve_argument(responses: Seq<InvocationView>, a: ArgumentView) -> Option<
    JsonView,
> {
    match a {
        ArgumentView::Absolute(v) => Some(v),
        ArgumentView::Reference(r) => match find_response(responses, r) {
            Some(inv) => eval_path(encode_arguments(inv.arguments), path_segments(r.path)),
            None => None,
        },
    }
}

/// All arguments resolved, in order; where any one fails, the whole call's
/// resolution fails.
pub open spec fn resolve_all(
    responses: Seq<InvocationView>,
    args: Seq<(Seq<char>, ArgumentView)>,
) -> Option<Seq<(Seq<char>, JsonView)>> {
    if forall|i: int| 0 <= i < args.len() ==> #[trigger] resolve_argument(responses, args[i].1) is Some {
        Some(Seq::new(args.len(), |i: int| (args[i].0, resolve_argument(responses, args[i].1)->Some_0)))
    } else {
        None
    }
}

/// The segments of a path: a leading `/` is dropped, and the rest is split
/// at each `/`. The empty path has no segments and points at the whole value.
pub open spec fn path_segments(path: Seq<char>) -> Seq<Seq<char>> {
    if path.len() == 0 {
        Seq::empty()
    } else if path[0] == '/' {
        split_segments(path.drop_first())
    } else {
        split_segments(path)
    }
}

/// `s` split at each `/`; text without a `/` is one segment.
pub open spec fn split_segments(s: Seq<char>) -> Seq<Seq<char>>
    decreases s.len(),
{
    if s.len() == 0 {
        seq![Seq::empty()]
    } else {
        let done = split_segments(s.drop_last());
        if s.last() == '/' {
            done.push(Seq::empty())
        } else {
            done.update(done.len() - 1, done.last().push(s.last()))
        }
    }
}

/// The segment that maps the rest of a path over the items of an array.
pub open spec fn wildcard() -> Seq<char> {
    "*"@
}

/// The items that one result adds to a wildcard's output: the items of an
/// array, or the value itself.
pub open spec fn spread(v: JsonView) -> Seq<JsonView> {
    match v {
        JsonView::Array(ys) => ys,
        _ => seq![v],
    }
}

/// Follows `segs` from `v`. A segment selects a member of an object by key,
/// or an item of an array by its decimal index; on an array `*` applies the
/// rest of the path to every item and collects the results. A missing key,
/// an index out of range or a segment into a scalar fails.
pub open spec fn eval_path(v: JsonView, segs: Seq<Seq<char>>) -> Option<JsonView>
    decreases segs.len(), 0nat,
{
    if segs.len() == 0 {
        Some(v)
    } else {
        let seg = segs[0];
        let rest = segs.drop_first();
        match v {
            JsonView::Object(ms) => match member_value(ms, seg) {
                Some(x) => eval_path(x, rest),
                None => None,
            },
            JsonView::Array(xs) => if seg == wildcard() {
                match eval_each(xs, rest) {
                    Some(ys) => Some(JsonView::Array(ys)),
                    None => None,
                }
            } else if is_index_text(seg) && decimal_value(seg) < xs.len() {
                eval_path(xs[decimal_value(seg) as int], rest)
            } else {
                None
            },
            _ => None,
        }
    }
}

/// Applies `rest` to each of `xs` in order and concatenates what each
/// result spreads to; fails where any one of them fails.
pub open spec fn eval_each(xs: Seq<JsonView>, rest: Seq<Seq<char>>) -> Option<Seq<JsonView>>
    decreases rest.len(), xs.len(),
{
    if xs.len() == 0 {
        Some(Seq::empty())
    } else {
        match (eval_each(xs.drop_last(), rest), eval_path(xs.last(), rest)) {
            (Some(acc), Some(r)) => Some(acc + spread(r)),
            _ => None,
        }
    }
}


/// Splits a path into its segments.
pub fn parse_path(path: &String) -> (r: Vec<String>)
    ensures
        strings_model(r@) == path_segments(path@),
{
    let text = path.as_str();
    let n = text.unicode_len();
    if n == 0 {
        let r: Vec<String> = Vec::new();
        assert(strings_model(r@) =~= Seq::empty());
        return r;
    }
    let first: usize = if text.get_char(0) == '/' {
        1
    } else {
        0
    };
    let body = text.substring_char(first, n);
    assert(path_segments(path@) == split_segments(body@)) by {
        if first == 1 {
            assert(path@.drop_first() =~= body@);
        } else {
            assert(path@ =~= body@);
        }
    }
    let m = n - first;
    let mut segs: Vec<String> = Vec::new();
    let mut start: usize = 0;
    let mut i: usize = 0;
    assert(body@.take(0) =~= Seq::<char>::empty());
    assert(strings_model(segs@).push(body@.subrange(0, 0)) =~= seq![Seq::<char>::empty()]);
    while i < m
        invariant
            m == body@.len(),
            start <= i <= m,
            split_segments(body@.take(i as int)) == strings_model(segs@).push(
                body@.subrange(start as int, i as int),
            ),
        decreases m - i,
    {
        let c = body.get_char(i);
        assert(body@.take(i + 1).drop_last() =~= body@.take(i as int));
        assert(body@.take(i + 1).last() == c);
        if c == '/' {
            let seg = String::from_str(body.substring_char(start, i));
            let ghost before = segs@;
            segs.push(seg);
            assert(strings_model(segs@) =~= strings_model(before).push(
                body@.subrange(start as int, i as int),
            ));
            start = i + 1;
            assert(body@.subrange(start as int, i + 1) =~= Seq::<char>::empty());
        } else {
            let ghost done = strings_model(segs@).push(body@.subrange(start as int, i as int));
            assert(body@.subrange(start as int, i + 1) =~= body@.subrange(
                start as int,
                i as int,
            ).push(c));
            assert(done.update(done.len() - 1, done.last().push(c)) =~= strings_model(segs@).push(
                body@.subrange(start as int, i + 1),
            ));
        }
        i = i + 1;
    }
    let last = String::from_str(body.substring_char(start, m));
    let ghost before = segs@;
    segs.push(last);
    assert(strings_model(segs@) =~= strings_model(before).push(
        body@.subrange(start as int, m as int),
    ));
    assert(body@.take(m as int) =~= body@);
    assert(split_segments(body@) == path_segments(path@));
    segs
}


proof fn lemma_decimal_prefix(s: Seq<char>, i: int)
    requires
        0 <= i <= s.len(),
        forall|k: int| 0 <= k < s.len() ==> '0' <= #[trigger] s[k] <= '9',
    ensures
        decimal_value(s.take(i)) <= decimal_value(s),
    decreases s.len(),
{
    if i < s.len() {
        let shorter = s.drop_last();
        assert(shorter.take(i) =~= s.take(i));
        assert forall|k: int| 0 <= k < shorter.len() implies '0' <= #[trigger] shorter[k] <= '9' by {
            assert(shorter[k] == s[k]);
        }
        lemma_decimal_prefix(shorter, i);
    } else {
        assert(s.take(i) =~= s);
    }
}

/// The array position that a segment names, where it is an index below `len`.
fn segment_index(seg: &String, len: usize) -> (r: Option<usize>)
    ensures
        r == (if is_index_text(seg@) && decimal_value(seg@) < len {
            Some(decimal_value(seg@) as usize)
        } else {
            None
        }),
{
    let text = seg.as_str();
    let n = text.unicode_len();
    if n == 0 || len == 0 {
        return None;
    }
    if text.get_char(0) == '0' && n > 1 {
        return None;
    }
    let mut value: usize = 0;
    let mut i: usize = 0;
    assert(seg@.take(0) =~= Seq::<char>::empty());
    while i < n
        invariant
            text@ == seg@,
            n == seg@.len(),
            n > 0,
            seg@[0] == '0' ==> n == 1,
            i <= n,
            value == decimal_value(seg@.take(i as int)),
            value < len,
            forall|k: int| 0 <= k < i ==> '0' <= #[trigger] seg@[k] <= '9',
        decreases n - i,
    {
        let c = text.get_char(i);
        if c < '0' || c > '9' {
            assert(!('0' <= seg@[i as int] <= '9'));
            return None;
        }
        let d = (c as u32 - '0' as u32) as usize;
        assert(seg@.take(i + 1).drop_last() =~= seg@.take(i as int));
        assert(seg@.take(i + 1).last() == c);
        let next: u128 = value as u128 * 10 + d as u128;
        assert(next == decimal_value(seg@.take(i + 1)));
        if next >= len as u128 {
            proof {
                if is_index_text(seg@) {
                    lemma_decimal_prefix(seg@, i + 1);
                }
            }
            return None;
        }
        value = next as usize;
        i = i + 1;
    }
    assert(seg@.take(n as int) =~= seg@);
    Some(value)
}

/// Once a prefix of the items fails, so does the whole wildcard.
proof fn lemma_eval_each_failed(xs: Seq<JsonView>, rest: Seq<Seq<char>>, i: int)
    requires
        0 <= i <= xs.len(),
        eval_each(xs.take(i), rest) is None,
    ensures
        eval_each(xs, rest) is None,
    decreases xs.len() - i,
{
    if i < xs.len() {
        assert(xs.take(i + 1).drop_last() =~= xs.take(i));
        lemma_eval_each_failed(xs, rest, i + 1);
    } else {
        assert(xs.take(i) =~= xs);
    }
}

pub open spec fn json_models(v: Seq<Json>) -> Seq<JsonView> {
    Seq::new(v.len(), |i: int| v[i]@)
}

/// Follows the segments of `segs` from position `from` on, starting at `v`.
pub fn eval(v: &Json, segs: &Vec<String>, from: usize) -> (r: Option<Json>)
    requires
        from <= segs.len(),
    ensures
        r matches Some(x) ==> eval_path(v@, strings_model(segs@).skip(from as int)) == Some(x@),
        r is None ==> eval_path(v@, strings_model(segs@).skip(from as int)) is None,
    decreases segs.len() - from,
{
    let ghost path = strings_model(segs@).skip(from as int);
    if from == segs.len() {
        return Some(v.copy());
    }
    let ghost rest = path.drop_first();
    assert(rest =~= strings_model(segs@).skip(from + 1));
    assert(path[0] == segs@[from as int]@);
    match v {
        Json::Object(ms) => {
            proof {
                lemma_object_members(*ms);
            }
            match get_member(ms, &segs[from]) {
                Some(x) => eval(x, segs, from + 1),
                None => None,
            }
        },
        Json::Array(xs) => {
            proof {
                lemma_array_view(*v);
                reveal_strlit("*");
            }
            let ghost model = v@->Array_0;
            let star = String::from_str("*");
            if segs[from] == star {
                let mut out: Vec<Json> = Vec::new();
                let mut i: usize = 0;
                assert(model.take(0) =~= Seq::<JsonView>::empty());
                assert(json_models(out@) =~= Seq::empty());
                assert(eval_path(v@, path) == match eval_each(model, rest) {
                    Some(ys) => Some(JsonView::Array(ys)),
                    None => None,
                });
                while i < xs.len()
                    invariant
                        from < segs.len(),
                        model == v@->Array_0,
                        model.len() == xs@.len(),
                        forall|k: int| 0 <= k < xs@.len() ==> model[k] == (#[trigger] xs@[k])@,
                        rest == strings_model(segs@).skip(from + 1),
                        path == strings_model(segs@).skip(from as int),
                        eval_path(v@, path) == match eval_each(model, rest) {
                            Some(ys) => Some(JsonView::Array(ys)),
                            None => None,
                        },
                        i <= xs.len(),
                        eval_each(model.take(i as int), rest) == Some(json_models(out@)),
                    decreases xs.len() - i,
                {
                    assert(model.take(i + 1).drop_last() =~= model.take(i as int));
                    assert(model.take(i + 1).last() == xs@[i as int]@);
                    match eval(&xs[i], segs, from + 1) {
                        Some(y) => {
                            let ghost before = json_models(out@);
                            let ghost ym = y@;
                            match y {
                                Json::Array(ys) => {
                                    proof {
                                        lemma_array_view(Json::Array(ys));
                                    }
                                    let ghost ys_model = Json::Array(ys)@->Array_0;
                                    let mut j: usize = 0;
                                    while j < ys.len()
                                        invariant
                                            j <= ys.len(),
                                            ys_model.len() == ys@.len(),
                                            forall|k: int|
                                                0 <= k < ys@.len() ==> ys_model[k] == (
                                                #[trigger] ys@[k])@,
                                            json_models(out@) == before + ys_model.take(j as int),
                                        decreases ys.len() - j,
                                    {
                                        let c = ys[j].copy();
                                        assert(ys_model.take(j + 1) =~= ys_model.take(j as int).push(
                                            c@,
                                        ));
                                        let ghost prev = json_models(out@);
                                        let ghost cm = c@;
                                        out.push(c);
                                        assert(json_models(out@) =~= prev.push(cm));
                                        assert(json_models(out@) =~= before + ys_model.take(
                                            j + 1,
                                        ));
                                        j = j + 1;
                                    }
                                    assert(ys_model.take(j as int) =~= ys_model);
                                    assert(spread(ym) == ys_model);
                                },
                                other => {
                                    let ghost om = other@;
                                    out.push(other);
                                    assert(json_models(out@) =~= before + seq![om]);
                                },
                            }
                        },
                        None => {
                            proof {
                                assert(eval_each(model.take(i + 1), rest) is None);
                                lemma_eval_each_failed(model, rest, i + 1);
                            }
                            return None;
                        },
                    }
                    i = i + 1;
                }
                assert(model.take(i as int) =~= model);
                let r = Json::Array(out);
                proof {
                    lemma_array_view(r);
                    assert(r@->Array_0 =~= json_models(out@));
                }
                Some(r)
            } else {
                match segment_index(&segs[from], xs.len()) {
                    Some(k) => eval(&xs[k], segs, from + 1),
                    None => None,
                }
            }
        },
        _ => None,
    }
}


/// The first response with the call id and the name that `r` asks for.
fn find_response_in<'a>(responses: &'a Vec<Invocation>, r: &ResultReference) -> (found: Option<
    &'a Invocation,
>)
    ensures
        found matches Some(inv) ==> find_response(invocations_model(responses@), r@) == Some(inv@),
        found is None ==> find_response(invocations_model(responses@), r@) is None,
{
    let ghost model = invocations_model(responses@);
    assert(model.subrange(0, model.len() as int) =~= model);
    let mut i: usize = 0;
    while i < responses.len()
        invariant
            model == invocations_model(responses@),
            i <= responses.len(),
            find_response(model, r@) == find_response(
                model.subrange(i as int, model.len() as int),
                r@,
            ),
        decreases responses.len() - i,
    {
        let ghost rest = model.subrange(i as int, model.len() as int);
        assert(rest[0] == responses@[i as int]@);
        if responses[i].call_id == r.result_of && responses[i].name == r.name {
            return Some(&responses[i]);
        }
        assert(rest.drop_first() =~= model.subrange(i + 1, model.len() as int));
        i = i + 1;
    }
    None
}

/// The value of one argument against the responses produced so far.
fn resolve_one(responses: &Vec<Invocation>, a: &Argument) -> (r: Option<Json>)
    ensures
        r matches Some(v) ==> resolve_argument(invocations_model(responses@), a@) == Some(v@),
        r is None ==> resolve_argument(invocations_model(responses@), a@) is None,
{
    match a {
        Argument::Absolute(v) => Some(v.copy()),
        Argument::Reference(x) => match find_response_in(responses, x) {
            Some(inv) => {
                let target = inv.arguments.encode();
                let segs = parse_path(&x.path);
                assert(strings_model(segs@).skip(0) =~= strings_model(segs@));
                eval(&target, &segs, 0)
            },
            None => None,
        },
    }
}

/// Resolves the arguments of one call against the responses that the
/// calls before it produced. Only those responses are consulted, so a call
/// can never reach the result of a call that comes after it.
pub fn resolve_arguments(response: &Response, args: &Arguments) -> (r: Option<ResolvedArguments>)
    ensures
        r matches Some(x) ==> resolve_all(invocations_model(response.method_responses@), args@)
            == Some(x@),
        r is None ==> resolve_all(invocations_model(response.method_responses@), args@) is None,
{
    let ghost responses = invocations_model(response.method_responses@);
    let mut out: Vec<(String, Json)> = Vec::new();
    let mut i: usize = 0;
    while i < args.0.len()
        invariant
            responses == invocations_model(response.method_responses@),
            i <= args.0.len(),
            out@.len() == i,
            forall|k: int| 0 <= k < i ==> #[trigger] resolve_argument(responses, args@[k].1) is Some,
            forall|k: int|
                0 <= k < i ==> (#[trigger] out@[k]).0@ == args@[k].0 && Some(out@[k].1@)
                    == resolve_argument(responses, args@[k].1),
        decreases args.0.len() - i,
    {
        match resolve_one(&response.method_responses, &args.0[i].1) {
            Some(v) => {
                out.push((args.0[i].0.clone(), v));
            },
            None => {
                assert(resolve_argument(responses, args@[i as int].1) is None);
                return None;
            },
        }
        i = i + 1;
    }
    let r = ResolvedArguments(out);
    assert(r@ =~= Seq::new(
        args@.len(),
        |k: int| (args@[k].0, resolve_argument(responses, args@[k].1)->Some_0),
    ));
    Some(r)
}

} // verus!
