//! Lists of models, merged from all backends.

use vstd::prelude::*;

use crate::config::BackendType;
use crate::error::{single_text, text_object};
use crate::json::{array_of, elements, json_of_bytes, json_view, text_of, Json, JsonView};
use crate::proxy::extract::{or_null, value_or_null};
use crate::registry::{sorted, Backend, BackendView, ModelRegistry};
use crate::seqs::{
    arrived, find_arrival, is_for, law_arrival_order, lemma_first_where, same_arrivals, views,
};
use crate::text::text_eq;

verus! {

/// The value in the reply of a backend: of a success with a JSON body.
pub open spec fn value_in_reply(status: u16, body: Option<JsonView>) -> Option<JsonView> {
    if 200 <= status < 300 {
        body
    } else {
        None
    }
}

/// The value in the reply of a backend.
pub fn reply_value(status: u16, body: &[u8]) -> (r: Option<Json>)
    ensures
        json_view(r) == value_in_reply(status, json_of_bytes(body@)),
{
    if status < 200 || status >= 300 {
        return None;
    }
    Json::from_slice(body)
}

// ---------------------------------------------------------------------
// Models

/// A model in the format of llama.cpp, in that of Ollama.
pub open spec fn as_ollama(m: JsonView) -> JsonView {
    JsonView::Object(map!["name"@ => or_null(m.member("id"@))])
}

/// The models that a backend lists, in the format of Ollama.
pub open spec fn models_of(backend_type: BackendType, reply: JsonView) -> Seq<JsonView> {
    match backend_type {
        BackendType::Ollama => match array_of(reply.member("models"@)) {
            Some(a) => a,
            None => Seq::empty(),
        },
        BackendType::Llamacpp => match array_of(reply.member("data"@)) {
            Some(a) => a.map_values(|m: JsonView| as_ollama(m)),
            None => Seq::empty(),
        },
    }
}

/// The models of replies.
pub open spec fn reply_views(replies: Seq<(usize, Json)>) -> Seq<(usize, JsonView)> {
    Seq::new(replies.len(), |i: int| (replies[i].0, replies[i].1@))
}

/// The models that backend number `i` listed; none if no reply of it arrived.
pub open spec fn models_from(
    backends: Seq<BackendView>,
    replies: Seq<(usize, JsonView)>,
    i: int,
) -> Seq<JsonView> {
    match arrived(replies, i) {
        Some(reply) => models_of(backends[i].config.backend_type, reply),
        None => Seq::empty(),
    }
}

/// The models that the first `n` backends listed, one backend after the other.
pub open spec fn all_models(
    backends: Seq<BackendView>,
    replies: Seq<(usize, JsonView)>,
    n: nat,
) -> Seq<JsonView>
    decreases n,
{
    if n == 0 {
        Seq::empty()
    } else {
        all_models(backends, replies, (n - 1) as nat) + models_from(backends, replies, n - 1)
    }
}

/// The models that backends listed, merged by name: of one name the entry of the
/// first backend stays.
pub open spec fn merged_models(
    backends: Seq<BackendView>,
    replies: Seq<(usize, JsonView)>,
) -> Seq<JsonView> {
    merged(all_models(backends, replies, backends.len()))
}

/// The name of a model.
pub open spec fn name_of(m: JsonView) -> Option<Seq<char>> {
    text_of(m.member("name"@))
}

/// A model of that name is in the list.
pub open spec fn has_name(models: Seq<JsonView>, name: Seq<char>) -> bool {
    exists|i: int| 0 <= i < models.len() && name_of(#[trigger] models[i]) == Some(name)
}

/// Of models of one name the first; models without a name are passed over.
pub open spec fn merged(models: Seq<JsonView>) -> Seq<JsonView>
    decreases models.len(),
{
    if models.len() == 0 {
        Seq::empty()
    } else {
        let before = merged(models.drop_last());
        match name_of(models.last()) {
            Some(name) => if has_name(before, name) {
                before
            } else {
                before.push(models.last())
            },
            None => before,
        }
    }
}

/// The models that a backend lists, in the format of Ollama.
fn listed(backend_type: BackendType, reply: &Json) -> (r: Vec<Json>)
    ensures
        elements(r@) == models_of(backend_type, reply@),
{
    let key = match backend_type {
        BackendType::Ollama => "models",
        BackendType::Llamacpp => "data",
    };
    let mut out: Vec<Json> = Vec::new();
    if let Some(list) = reply.get(key) {
        if let Some(items) = list.as_array() {
            let mut i: usize = 0;
            while i < items.len()
                invariant
                    i <= items@.len(),
                    out@.len() == i,
                    forall|k: int|
                        0 <= k < i ==> (#[trigger] out@[k])@ == match backend_type {
                            BackendType::Ollama => items@[k]@,
                            BackendType::Llamacpp => as_ollama(items@[k]@),
                        },
                decreases items.len() - i,
            {
                match backend_type {
                    BackendType::Ollama => out.push(items[i].clone()),
                    BackendType::Llamacpp => {
                        let mut model = Json::object();
                        model.set("name", value_or_null(items[i].get("id")));
                        out.push(model);
                    },
                }
                i += 1;
            }
            assert(elements(out@) =~= models_of(backend_type, reply@));
            return out;
        }
    }
    assert(elements(out@) =~= models_of(backend_type, reply@));
    out
}

/// Whether a model of that name is in the list.
fn name_known(models: &Vec<Json>, name: &str) -> (r: bool)
    ensures
        r == has_name(elements(models@), name@),
{
    let mut i: usize = 0;
    while i < models.len()
        invariant
            i <= models@.len(),
            forall|k: int| 0 <= k < i ==> name_of(#[trigger] elements(models@)[k]) != Some(name@),
        decreases models.len() - i,
    {
        assert(elements(models@)[i as int] == models@[i as int]@);
        if let Some(n) = models[i].get("name") {
            if let Some(s) = n.as_str() {
                if text_eq(s, name) {
                    return true;
                }
            }
        }
        i += 1;
    }
    false
}

/// Adds the models whose names are not there yet.
fn merge_into(out: &mut Vec<Json>, models: &Vec<Json>, Ghost(seen): Ghost<Seq<JsonView>>)
    requires
        elements(old(out)@) == merged(seen),
    ensures
        elements(final(out)@) == merged(seen + elements(models@)),
{
    let ghost all = elements(models@);
    let mut i: usize = 0;
    assert(seen + all.take(0) =~= seen);
    while i < models.len()
        invariant
            i <= models@.len(),
            all == elements(models@),
            elements(out@) == merged(seen + all.take(i as int)),
        decreases models.len() - i,
    {
        let ghost before = elements(out@);
        assert((seen + all.take(i + 1)).drop_last() =~= seen + all.take(i as int));
        assert((seen + all.take(i + 1)).last() == models@[i as int]@);
        if let Some(n) = models[i].get("name") {
            if let Some(s) = n.as_str() {
                if !name_known(out, s) {
                    out.push(models[i].clone());
                    assert(elements(out@) =~= before.push(models@[i as int]@));
                }
            }
        }
        i += 1;
    }
    assert(all.take(all.len() as int) =~= all);
}

/// The models that backends listed, merged by name.  A reply comes with the
/// position of its backend, in whatever order.
pub fn merge_models(backends: &Vec<&Backend>, replies: &Vec<(usize, Json)>) -> (r: Vec<Json>)
    ensures
        elements(r@) == merged_models(views(backends@), reply_views(replies@)),
{
    let ghost bs = views(backends@);
    let ghost rs = reply_views(replies@);
    let mut out: Vec<Json> = Vec::new();
    let mut i: usize = 0;
    assert(elements(out@) =~= Seq::<JsonView>::empty());
    while i < backends.len()
        invariant
            i <= backends@.len(),
            bs == views(backends@),
            rs == reply_views(replies@),
            elements(out@) == merged(all_models(bs, rs, i as nat)),
        decreases backends.len() - i,
    {
        let k = find_arrival(replies, i);
        proof {
            let f = is_for::<JsonView>(i as int);
            assert forall|j: int| 0 <= j < k implies !f(#[trigger] rs[j]) by {
                assert(replies@[j].0 != i);
            }
            lemma_first_where(rs, f, k as int);
            assert(bs[i as int] == backends@[i as int]@);
        }
        if k < replies.len() {
            let backend: &Backend = backends[i];
            let models = listed(backend.config.backend_type, &replies[k].1);
            merge_into(&mut out, &models, Ghost(all_models(bs, rs, i as nat)));
        } else {
            assert(all_models(bs, rs, (i + 1) as nat) =~= all_models(bs, rs, i as nat));
        }
        i += 1;
    }
    out
}

/// A merged list has every name once, and no name but those of the models.
pub proof fn law_merged_names(models: Seq<JsonView>, name: Seq<char>)
    ensures
        has_name(merged(models), name) <==> has_name(models, name),
        forall|i: int|
            0 <= i < merged(models).len() ==> name_of(#[trigger] merged(models)[i]) is Some,
        forall|i: int, j: int|
            0 <= i < j < merged(models).len() ==> name_of(#[trigger] merged(models)[i]) != name_of(
                #[trigger] merged(models)[j],
            ),
    decreases models.len(),
{
    lemma_all_named(models);
    if models.len() > 0 {
        let rest = models.drop_last();
        let last = models.last();
        law_merged_names(rest, name);
        let m = merged(rest);
        assert forall|k: int| 0 <= k < m.len() implies merged(models)[k] == m[k] by {}
        if has_name(merged(models), name) {
            let i = choose|i: int|
                0 <= i < merged(models).len() && name_of(#[trigger] merged(models)[i]) == Some(name);
            if i < m.len() {
                assert(name_of(m[i]) == Some(name));
                let k = choose|k: int|
                    0 <= k < rest.len() && name_of(#[trigger] rest[k]) == Some(name);
                assert(name_of(models[k]) == Some(name));
            } else {
                assert(name_of(models[models.len() - 1]) == Some(name));
            }
        }
        if has_name(models, name) {
            let i = choose|i: int|
                0 <= i < models.len() && name_of(#[trigger] models[i]) == Some(name);
            if i < rest.len() {
                assert(name_of(rest[i]) == Some(name));
                let k = choose|k: int| 0 <= k < m.len() && name_of(#[trigger] m[k]) == Some(name);
                assert(name_of(merged(models)[k]) == Some(name));
            } else if has_name(m, name) {
                let k = choose|k: int| 0 <= k < m.len() && name_of(#[trigger] m[k]) == Some(name);
                assert(name_of(merged(models)[k]) == Some(name));
            } else {
                assert(name_of(merged(models)[m.len() as int]) == Some(name));
            }
        }
        assert forall|i: int, j: int| 0 <= i < j < merged(models).len() implies name_of(
            #[trigger] merged(models)[i],
        ) != name_of(#[trigger] merged(models)[j]) by {
            if j < m.len() {
                assert(m[i] == merged(models)[i] && m[j] == merged(models)[j]);
            } else {
                assert(m[i] == merged(models)[i]);
                assert(name_of(m[i]) is Some);
                if name_of(m[i]) == name_of(last) {
                    assert(has_name(m, name_of(last)->0));
                }
            }
        }
    }
}

/// Every model in a merged list has a name.
proof fn lemma_all_named(models: Seq<JsonView>)
    ensures
        forall|i: int| 0 <= i < merged(models).len() ==> name_of(#[trigger] merged(models)[i]) is Some,
    decreases models.len(),
{
    if models.len() > 0 {
        lemma_all_named(models.drop_last());
        let m = merged(models.drop_last());
        assert forall|i: int| 0 <= i < merged(models).len() implies name_of(
            #[trigger] merged(models)[i],
        ) is Some by {
            if i < m.len() {
                assert(merged(models)[i] == m[i]);
            }
        }
    }
}

/// A model in the format of OpenAI.
pub open spec fn as_openai(m: JsonView) -> JsonView {
    JsonView::Object(
        map![
            "id"@ => JsonView::Str(match name_of(m) {
                Some(name) => name,
                None => Seq::empty(),
            }),
            "object"@ => JsonView::Str("model"@),
        ],
    )
}

/// A list of models: under `/v1/models` in the format of OpenAI, elsewhere in
/// that of Ollama.
pub open spec fn model_list(path: Seq<char>, models: Seq<JsonView>) -> JsonView {
    if path == "/v1/models"@ {
        JsonView::Object(
            map![
                "object"@ => JsonView::Str("list"@),
                "data"@ => JsonView::Array(models.map_values(|m: JsonView| as_openai(m))),
            ],
        )
    } else {
        JsonView::Object(map!["models"@ => JsonView::Array(models)])
    }
}

/// A list of models in the format that goes with the path.
fn format_models(path: &str, models: Vec<Json>) -> (r: Json)
    ensures
        r@ == model_list(path@, elements(models@)),
{
    if text_eq(path, "/v1/models") {
        let mut data: Vec<Json> = Vec::new();
        let mut i: usize = 0;
        while i < models.len()
            invariant
                i <= models@.len(),
                data@.len() == i,
                forall|k: int| 0 <= k < i ==> (#[trigger] data@[k])@ == as_openai(models@[k]@),
            decreases models.len() - i,
        {
            let name = match models[i].get("name") {
                Some(n) => match n.as_str() {
                    Some(s) => s,
                    None => "",
                },
                None => "",
            };
            proof {
                reveal_strlit("");
                assert(""@ =~= Seq::<char>::empty());
            }
            let mut model = Json::object();
            model.set("id", Json::str(name));
            model.set("object", Json::str("model"));
            data.push(model);
            i += 1;
        }
        let ghost entries = elements(models@).map_values(|m: JsonView| as_openai(m));
        assert(elements(data@) =~= entries);
        let mut list = Json::object();
        list.set("object", Json::str("list"));
        list.set("data", Json::Array(data));
        list
    } else {
        let mut list = Json::object();
        list.set("models", Json::Array(models));
        list
    }
}

/// The answer to a request for the list of models, from what the healthy
/// backends replied.  A reply comes with the position of its backend among the
/// healthy ones, which stand by priority; the replies come in whatever order.
/// With no healthy backend it is an error.
pub fn aggregate_models(path: &str, registry: &ModelRegistry, replies: &Vec<(usize, Json)>) -> (r:
    Json)
    ensures
        ({
            let healthy = registry@.filter(|b: BackendView| b.healthy);
            &&& sorted(healthy)
            &&& r@ == if healthy.len() > 0 {
                model_list(path@, merged_models(healthy, reply_views(replies@)))
            } else {
                text_object("error"@, "no healthy backends available"@)
            }
        }),
{
    let healthy = registry.all_healthy_backends();
    assert(views(healthy@).len() == healthy@.len());
    if healthy.len() > 0 {
        format_models(path, merge_models(&healthy, replies))
    } else {
        single_text("error", "no healthy backends available")
    }
}

/// Of models of one name the first stays.
proof fn lemma_first_stays(models: Seq<JsonView>, i: int)
    requires
        0 <= i < models.len(),
        name_of(models[i]) is Some,
        forall|j: int| 0 <= j < i ==> name_of(#[trigger] models[j]) != name_of(models[i]),
    ensures
        merged(models).contains(models[i]),
    decreases models.len(),
{
    let rest = models.drop_last();
    let name = name_of(models[i])->0;
    if i < rest.len() {
        lemma_first_stays(rest, i);
        let k = choose|k: int| 0 <= k < merged(rest).len() && merged(rest)[k] == models[i];
        assert(merged(models)[k] == models[i]);
    } else {
        law_merged_names(rest, name);
        assert(!has_name(rest, name));
        assert(merged(models)[merged(rest).len() as int] == models[i]);
    }
}

/// Of models of one name the first stays, and no other of that name.
pub proof fn law_first_stays(models: Seq<JsonView>, i: int, m: JsonView)
    requires
        0 <= i < models.len(),
        name_of(models[i]) is Some,
        forall|j: int| 0 <= j < i ==> name_of(#[trigger] models[j]) != name_of(models[i]),
        merged(models).contains(m),
        name_of(m) == name_of(models[i]),
    ensures
        m == models[i],
{
    lemma_first_stays(models, i);
    law_merged_names(models, name_of(m)->0);
    let j = choose|j: int| 0 <= j < merged(models).len() && merged(models)[j] == models[i];
    let k = choose|k: int| 0 <= k < merged(models).len() && merged(models)[k] == m;
    if j < k {
        assert(name_of(merged(models)[j]) != name_of(merged(models)[k]));
    }
    if k < j {
        assert(name_of(merged(models)[k]) != name_of(merged(models)[j]));
    }
}

/// The models that the first backends listed come before those of others.
proof fn lemma_all_models_prefix(
    backends: Seq<BackendView>,
    replies: Seq<(usize, JsonView)>,
    i: nat,
    n: nat,
)
    requires
        i < n,
    ensures
        all_models(backends, replies, i).len() + models_from(backends, replies, i as int).len()
            <= all_models(backends, replies, n).len(),
        forall|k: int|
            0 <= k < all_models(backends, replies, i).len() ==> #[trigger] all_models(
                backends,
                replies,
                n,
            )[k] == all_models(backends, replies, i)[k],
        forall|k: int|
            0 <= k < models_from(backends, replies, i as int).len() ==> all_models(
                backends,
                replies,
                n,
            )[all_models(backends, replies, i).len() + k] == #[trigger] models_from(
                backends,
                replies,
                i as int,
            )[k],
    decreases n,
{
    if i < n - 1 {
        lemma_all_models_prefix(backends, replies, i, (n - 1) as nat);
    }
}

/// A model that the first backends listed is of one of them.
proof fn lemma_model_from(
    backends: Seq<BackendView>,
    replies: Seq<(usize, JsonView)>,
    n: nat,
    k: int,
)
    requires
        0 <= k < all_models(backends, replies, n).len(),
    ensures
        exists|j: int|
            0 <= j < n && (#[trigger] models_from(backends, replies, j)).contains(
                all_models(backends, replies, n)[k],
            ),
    decreases n,
{
    let before = all_models(backends, replies, (n - 1) as nat);
    let last = models_from(backends, replies, n - 1);
    if k < before.len() {
        lemma_model_from(backends, replies, (n - 1) as nat, k);
    } else {
        assert(last[k - before.len()] == all_models(backends, replies, n)[k]);
        assert(models_from(backends, replies, n - 1).contains(
            all_models(backends, replies, n)[k],
        ));
    }
}

/// Of two backends that list a model of the same name, the better one gives the
/// entry: where backend `i` lists it at `k`, and neither the backends before it
/// nor an entry before `k` has the name, that entry is the one in the merged
/// list, and no backend that lists the name has a lower priority number.
pub proof fn law_best_backend_listed(
    backends: Seq<BackendView>,
    replies: Seq<(usize, JsonView)>,
    i: int,
    k: int,
    m: JsonView,
)
    requires
        sorted(backends),
        0 <= i < backends.len(),
        0 <= k < models_from(backends, replies, i).len(),
        name_of(models_from(backends, replies, i)[k]) is Some,
        forall|j: int|
            0 <= j < k ==> name_of(#[trigger] models_from(backends, replies, i)[j]) != name_of(
                models_from(backends, replies, i)[k],
            ),
        forall|j: int|
            0 <= j < i ==> !has_name(
                #[trigger] models_from(backends, replies, j),
                name_of(models_from(backends, replies, i)[k])->0,
            ),
    ensures
        merged_models(backends, replies).contains(models_from(backends, replies, i)[k]),
        merged_models(backends, replies).contains(m) && name_of(m) == name_of(
            models_from(backends, replies, i)[k],
        ) ==> m == models_from(backends, replies, i)[k],
        forall|j: int|
            0 <= j < backends.len() && has_name(
                #[trigger] models_from(backends, replies, j),
                name_of(models_from(backends, replies, i)[k])->0,
            ) ==> backends[i].config.priority <= backends[j].config.priority,
{
    let own = models_from(backends, replies, i);
    let name = name_of(own[k])->0;
    let n = backends.len();
    let all = all_models(backends, replies, n);
    let before = all_models(backends, replies, i as nat);
    lemma_all_models_prefix(backends, replies, i as nat, n);
    let at = before.len() + k;
    assert(all[at] == own[k]);
    assert forall|j: int| 0 <= j < at implies name_of(#[trigger] all[j]) != name_of(all[at]) by {
        if j < before.len() {
            assert(all[j] == before[j]);
            lemma_model_from(backends, replies, i as nat, j);
            let b = choose|b: int|
                0 <= b < i && (#[trigger] models_from(backends, replies, b)).contains(before[j]);
            let list = models_from(backends, replies, b);
            let x = choose|x: int| 0 <= x < list.len() && list[x] == before[j];
            if name_of(list[x]) == Some(name) {
                assert(has_name(list, name));
            }
        } else {
            assert(all[before.len() + (j - before.len())] == own[j - before.len()]);
        }
    }
    lemma_first_stays(all, at);
    if merged(all).contains(m) && name_of(m) == name_of(own[k]) {
        law_first_stays(all, at, m);
    }
    assert forall|j: int|
        0 <= j < backends.len() && has_name(
            #[trigger] models_from(backends, replies, j),
            name,
        ) implies backends[i].config.priority <= backends[j].config.priority by {
        if j < i {
            assert(!has_name(models_from(backends, replies, j), name));
        }
    }
}

/// In what order the replies arrive does not matter for the merged list.
pub proof fn law_reply_order(
    backends: Seq<BackendView>,
    a: Seq<(usize, JsonView)>,
    b: Seq<(usize, JsonView)>,
)
    requires
        same_arrivals(a, b),
    ensures
        merged_models(backends, a) == merged_models(backends, b),
{
    lemma_all_models_order(backends, a, b, backends.len());
}

/// In what order the replies arrive does not matter for what is listed.
proof fn lemma_all_models_order(
    backends: Seq<BackendView>,
    a: Seq<(usize, JsonView)>,
    b: Seq<(usize, JsonView)>,
    n: nat,
)
    requires
        same_arrivals(a, b),
    ensures
        all_models(backends, a, n) == all_models(backends, b, n),
    decreases n,
{
    if n > 0 {
        lemma_all_models_order(backends, a, b, (n - 1) as nat);
        law_arrival_order(a, b, n - 1);
    }
}

// ---------------------------------------------------------------------
// Running models

/// The models that replies list as running, one reply after the other.
pub open spec fn all_running(replies: Seq<Json>) -> Seq<JsonView>
    decreases replies.len(),
{
    if replies.len() == 0 {
        Seq::empty()
    } else {
        all_running(replies.drop_last()) + models_of(BackendType::Ollama, replies.last()@)
    }
}

/// The answer to a request for the running models, from what the healthy
/// Ollama backends replied, in whatever order.
pub fn aggregate_ps(replies: &Vec<Json>) -> (r: Json)
    ensures
        r@ == JsonView::Object(map!["models"@ => JsonView::Array(all_running(replies@))]),
{
    let mut out: Vec<Json> = Vec::new();
    let mut i: usize = 0;
    assert(replies@.take(0) =~= Seq::<Json>::empty());
    assert(elements(out@) =~= Seq::<JsonView>::empty());
    while i < replies.len()
        invariant
            i <= replies@.len(),
            elements(out@) == all_running(replies@.take(i as int)),
        decreases replies.len() - i,
    {
        let mut models = listed(BackendType::Ollama, &replies[i]);
        let ghost before = elements(out@);
        let ghost more = elements(models@);
        let ghost (a, b) = (out@, models@);
        out.append(&mut models);
        assert(out@ =~= a + b);
        assert(elements(out@) =~= before + more);
        assert(replies@.take(i + 1).drop_last() =~= replies@.take(i as int));
        i += 1;
    }
    assert(replies@.take(replies@.len() as int) =~= replies@);
    let mut list = Json::object();
    list.set("models", Json::Array(out));
    list
}

// ---------------------------------------------------------------------
// Laws

/// The models that a reply lists as running: all that stand in its array, as they
/// stand there; none if it has no such array.
pub open spec fn are_running_in(reply: JsonView, models: Seq<JsonView>) -> bool {
    match reply {
        JsonView::Object(m) => if m.contains_key("models"@) && m["models"@] is Array {
            models == m["models"@]->Array_0
        } else {
            models.len() == 0
        },
        _ => models.len() == 0,
    }
}

/// Every model that a reply lists as running is in the merged list: the arrays of
/// the replies stand in it as they came, one after the other, and its length is
/// the sum of theirs.
pub proof fn law_all_running(replies: Seq<Json>, last: Json)
    ensures
        all_running(Seq::empty()).len() == 0,
        are_running_in(
            last@,
            all_running(replies.push(last)).skip(all_running(replies).len() as int),
        ),
        all_running(replies) == all_running(replies.push(last)).take(
            all_running(replies).len() as int,
        ),
        all_running(replies.push(last)).len() >= all_running(replies).len(),
{
    let all = replies.push(last);
    assert(all.drop_last() =~= replies);
    let more = models_of(BackendType::Ollama, last@);
    assert((all_running(replies) + more).skip(all_running(replies).len() as int) =~= more);
    assert((all_running(replies) + more).take(all_running(replies).len() as int) =~= all_running(
        replies,
    ));
}

/// Every model in the array of any reply is in the merged list of running models.
pub proof fn law_running_in_replies(replies: Seq<Json>, i: int, running: Seq<JsonView>, m: JsonView)
    requires
        0 <= i < replies.len(),
        are_running_in(replies[i]@, running),
        running.contains(m),
    ensures
        all_running(replies).contains(m),
    decreases replies.len(),
{
    let before = all_running(replies.drop_last());
    let last = models_of(BackendType::Ollama, replies.last()@);
    if i < replies.len() - 1 {
        law_running_in_replies(replies.drop_last(), i, running, m);
        let k = choose|k: int| 0 <= k < before.len() && before[k] == m;
        assert(all_running(replies)[k] == m);
    } else {
        assert(running =~= last);
        let k = choose|k: int| 0 <= k < last.len() && last[k] == m;
        assert(all_running(replies)[before.len() + k] == m);
    }
}

/// What a backend lists: Ollama lists models as they are handed on; llama.cpp
/// lists them under `data`, and each is handed on as an object with nothing but
/// its id as the name.
pub proof fn law_models_listed(reply: JsonView, i: int, key: Seq<char>)
    ensures
        are_running_in(reply, models_of(BackendType::Ollama, reply)),
        match reply.member("data"@) {
            Some(JsonView::Array(a)) => {
                let models = models_of(BackendType::Llamacpp, reply);
                &&& models.len() == a.len()
                &&& 0 <= i < a.len() ==> models[i] is Object && models[i].member(key) == if key
                    == "name"@ {
                    Some(
                        match a[i].member("id"@) {
                            Some(id) => id,
                            None => JsonView::Null,
                        },
                    )
                } else {
                    None
                }
            },
            _ => models_of(BackendType::Llamacpp, reply).len() == 0,
        },
{
}

/// A backend is taken at its reply, by its kind, and one without a reply lists
/// nothing.
pub proof fn law_reply_of_backend(
    backends: Seq<BackendView>,
    replies: Seq<(usize, JsonView)>,
    k: int,
    i: int,
)
    requires
        0 <= k < replies.len(),
        forall|j: int| 0 <= j < k ==> (#[trigger] replies[j]).0 != replies[k].0,
        forall|j: int| 0 <= j < replies.len() ==> (#[trigger] replies[j]).0 != i,
    ensures
        models_from(backends, replies, replies[k].0 as int) == models_of(
            backends[replies[k].0 as int].config.backend_type,
            replies[k].1,
        ),
        models_from(backends, replies, i).len() == 0,
{
    lemma_first_where(replies, is_for::<JsonView>(replies[k].0 as int), k);
    lemma_first_where(replies, is_for::<JsonView>(i), replies.len() as int);
}

/// The models of all backends are those of each, in the order of the backends.
pub proof fn law_backends_in_order(
    backends: Seq<BackendView>,
    replies: Seq<(usize, JsonView)>,
    n: nat,
)
    ensures
        all_models(backends, replies, n) == Seq::new(
            n,
            |i: int| models_from(backends, replies, i),
        ).flatten(),
    decreases n,
{
    let lists = Seq::new(n, |i: int| models_from(backends, replies, i));
    if n > 0 {
        let before = Seq::new((n - 1) as nat, |i: int| models_from(backends, replies, i));
        law_backends_in_order(backends, replies, (n - 1) as nat);
        before.lemma_flatten_push(models_from(backends, replies, n - 1));
        assert(lists =~= before.push(models_from(backends, replies, n - 1)));
    } else {
        assert(lists =~= Seq::<Seq<JsonView>>::empty());
    }
}

/// The entry has that text under `name`.
pub open spec fn is_named(m: JsonView, name: Seq<char>) -> bool {
    match m {
        JsonView::Object(o) => o.contains_key("name"@) && o["name"@] == JsonView::Str(name),
        _ => false,
    }
}

/// What stays of a list of models when it is merged: exactly the first entry of
/// every name, as it is; entries without a name go.
pub proof fn law_merged_entries(models: Seq<JsonView>, m: JsonView)
    ensures
        merged(models).contains(m) <==> exists|i: int, name: Seq<char>|
            0 <= i < models.len() && models[i] == m && #[trigger] is_named(models[i], name)
                && forall|j: int| 0 <= j < i ==> !is_named(#[trigger] models[j], name),
{
    if exists|i: int, name: Seq<char>|
        0 <= i < models.len() && models[i] == m && #[trigger] is_named(models[i], name) && forall|
            j: int,
        |
            0 <= j < i ==> !is_named(#[trigger] models[j], name) {
        let (i, name) = choose|i: int, name: Seq<char>|
            0 <= i < models.len() && models[i] == m && #[trigger] is_named(models[i], name)
                && forall|j: int| 0 <= j < i ==> !is_named(#[trigger] models[j], name);
        assert forall|j: int| 0 <= j < i implies name_of(#[trigger] models[j]) != name_of(
            models[i],
        ) by {
            assert(!is_named(models[j], name));
        }
        lemma_first_stays(models, i);
    }
    if merged(models).contains(m) {
        lemma_merged_from(models, m);
        let i = choose|i: int|
            0 <= i < models.len() && models[i] == m && #[trigger] name_of(models[i]) is Some
                && forall|j: int|
                0 <= j < i ==> name_of(#[trigger] models[j]) != name_of(models[i]);
        let name = name_of(m)->0;
        assert(is_named(models[i], name));
        assert forall|j: int| 0 <= j < i implies !is_named(#[trigger] models[j], name) by {
            assert(name_of(models[j]) != name_of(models[i]));
        }
    }
}

/// What is in a merged list was the first of its name.
proof fn lemma_merged_from(models: Seq<JsonView>, m: JsonView)
    requires
        merged(models).contains(m),
    ensures
        exists|i: int|
            0 <= i < models.len() && models[i] == m && #[trigger] name_of(models[i]) is Some
                && forall|j: int|
                0 <= j < i ==> name_of(#[trigger] models[j]) != name_of(models[i]),
    decreases models.len(),
{
    let rest = models.drop_last();
    let before = merged(rest);
    let k = choose|k: int| 0 <= k < merged(models).len() && merged(models)[k] == m;
    if k < before.len() {
        assert(before[k] == m);
        assert(before.contains(m));
        lemma_merged_from(rest, m);
        let i = choose|i: int|
            0 <= i < rest.len() && rest[i] == m && #[trigger] name_of(rest[i]) is Some && forall|
                j: int,
            |
                0 <= j < i ==> name_of(#[trigger] rest[j]) != name_of(rest[i]);
        assert(models[i] == m);
        assert(name_of(models[i]) is Some);
        assert forall|j: int| 0 <= j < i implies name_of(#[trigger] models[j]) != name_of(
            models[i],
        ) by {
            assert(rest[j] == models[j]);
        }
    } else {
        let i = models.len() - 1;
        let name = name_of(m)->0;
        assert(models[i] == m);
        assert(name_of(models[i]) is Some);
        law_merged_names(rest, name);
        assert forall|j: int| 0 <= j < i implies name_of(#[trigger] models[j]) != name_of(
            models[i],
        ) by {
            if name_of(models[j]) == name_of(models[i]) {
                assert(name_of(rest[j]) == Some(name));
                assert(has_name(rest, name));
            }
        }
    }
}

/// Merging keeps the order: a list that is merged together with more begins with
/// what it is merged to by itself.
pub proof fn law_merged_order(a: Seq<JsonView>, b: Seq<JsonView>)
    ensures
        merged(a).len() <= merged(a + b).len(),
        merged(a + b).take(merged(a).len() as int) == merged(a),
    decreases b.len(),
{
    if b.len() == 0 {
        assert(a + b =~= a);
        assert(merged(a).take(merged(a).len() as int) =~= merged(a));
    } else {
        assert((a + b).drop_last() =~= a + b.drop_last());
        law_merged_order(a, b.drop_last());
        let before = merged(a + b.drop_last());
        assert(merged(a + b).take(merged(a).len() as int) =~= before.take(merged(a).len() as int));
    }
}

/// The list that is handed out has all the models and nothing else: under
/// `/v1/models` each as an object with its name as the id, elsewhere each as it
/// is.
pub proof fn law_list_format(path: Seq<char>, models: Seq<JsonView>, i: int, key: Seq<char>)
    ensures
        path != "/v1/models"@ ==> model_list(path, models).member("models"@) == Some(
            JsonView::Array(models),
        ) && (key != "models"@ ==> model_list(path, models).member(key) is None),
        path == "/v1/models"@ ==> {
            let list = model_list(path, models);
            let data = list.member("data"@);
            &&& list.member("object"@) == Some(JsonView::Str("list"@))
            &&& key != "object"@ && key != "data"@ ==> list.member(key) is None
            &&& data is Some && data->0 is Array && data->0->Array_0.len() == models.len()
            &&& 0 <= i < models.len() ==> {
                let entry = data->0->Array_0[i];
                &&& entry.member("object"@) == Some(JsonView::Str("model"@))
                &&& forall|name: Seq<char>|
                    is_named(models[i], name) ==> entry.member("id"@) == Some(
                        JsonView::Str(name),
                    )
                &&& key != "object"@ && key != "id"@ ==> entry.member(key) is None
            }
        },
{
    reveal_strlit("object");
    reveal_strlit("data");
    reveal_strlit("id");
    assert("object"@.len() != "data"@.len());
    assert("object"@.len() != "id"@.len());
}

/// A reply counts if its status is a success and its body is JSON.
pub proof fn law_reply_counts(status: u16, body: Option<JsonView>)
    ensures
        200 <= status <= 299 ==> value_in_reply(status, body) == body,
        status < 200 || status > 299 ==> value_in_reply(status, body) is None,
{
}

/// The models of replies have the position and the value of each, in order.
pub proof fn law_reply_models(replies: Seq<(usize, Json)>, i: int)
    ensures
        reply_views(replies).len() == replies.len(),
        0 <= i < replies.len() ==> reply_views(replies)[i].0 == replies[i].0 && reply_views(
            replies,
        )[i].1 == replies[i].1@,
{
}

} // verus!
