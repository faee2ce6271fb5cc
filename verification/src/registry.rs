//! The backends, which of them are healthy, and which models they have.

use vstd::prelude::*;

use crate::config::{BackendConfig, BackendConfigView, BackendType};
use crate::json::{array_of, elements, json_of_bytes, text_of, Json, JsonView};
use crate::seqs::{
    arrived, find_arrival, first_where, is_for, law_arrival_order, lemma_filter_from,
    lemma_filter_none, lemma_filter_push, lemma_first_where, lemma_first_where_holds,
    same_arrivals, views,
};
use crate::text::{text_eq, trim_end_matches, trim_end_of};

verus! {

/// A backend as it was last found.
#[derive(Debug)]
pub struct Backend {
    pub config: BackendConfig,
    pub models: Vec<String>,
    pub healthy: bool,
}

/// The model of `Backend`.
pub struct BackendView {
    pub config: BackendConfigView,
    pub models: Seq<Seq<char>>,
    pub healthy: bool,
}

impl View for Backend {
    type V = BackendView;

    open spec fn view(&self) -> BackendView {
        BackendView {
            config: self.config@,
            models: views(self.models@),
            healthy: self.healthy,
        }
    }
}

// ---------------------------------------------------------------------
// Polling a backend

/// The path under which a backend lists its models.
pub open spec fn models_path(backend_type: BackendType) -> Seq<char> {
    match backend_type {
        BackendType::Ollama => "/api/tags"@,
        BackendType::Llamacpp => "/v1/models"@,
    }
}

/// The URL under which a backend lists its models.
pub fn models_url(backend: &BackendConfig) -> (r: String)
    ensures
        r@ == trim_end_of(backend.url@, '/') + models_path(backend.backend_type),
{
    let mut url = trim_end_matches(backend.url.as_str(), '/');
    match backend.backend_type {
        BackendType::Ollama => url.append("/api/tags"),
        BackendType::Llamacpp => url.append("/v1/models"),
    }
    url
}

/// The strings under `key` in the elements of the array under `list`; elements
/// without one are passed over.
pub open spec fn names_under(v: JsonView, list: Seq<char>, key: Seq<char>) -> Seq<Seq<char>> {
    match array_of(v.member(list)) {
        Some(items) => items.filter_map(|m: JsonView| text_of(m.member(key))),
        None => Seq::empty(),
    }
}

/// The models that a backend lists, in the format of its kind.
pub open spec fn listed_models(backend_type: BackendType, v: JsonView) -> Seq<Seq<char>> {
    match backend_type {
        BackendType::Ollama => names_under(v, "models"@, "name"@),
        BackendType::Llamacpp => names_under(v, "data"@, "id"@),
    }
}

/// The strings under `key` in the elements of the array under `list`.
pub fn collect_names(v: &Json, list: &str, key: &str) -> (r: Vec<String>)
    ensures
        views(r@) == names_under(v@, list@, key@),
{
    let mut out: Vec<String> = Vec::new();
    assert(views(out@) =~= Seq::<Seq<char>>::empty());
    if let Some(items) = v.get(list) {
        if let Some(items) = items.as_array() {
            let ghost all = elements(items@);
            let ghost f = |m: JsonView| text_of(m.member(key@));
            let mut i: usize = 0;
            assert(all.take(0) =~= Seq::<JsonView>::empty());
            while i < items.len()
                invariant
                    i <= items@.len(),
                    all == elements(items@),
                    f == (|m: JsonView| text_of(m.member(key@))),
                    views(out@) == all.take(i as int).filter_map(f),
                decreases items.len() - i,
            {
                assert(all.take(i + 1).drop_last() =~= all.take(i as int));
                let ghost before = views(out@);
                if let Some(name) = items[i].get(key) {
                    if let Some(text) = name.as_str() {
                        out.push(text.to_owned());
                        assert(views(out@) =~= before + seq![text@]);
                    }
                }
                i += 1;
            }
            assert(all.take(all.len() as int) =~= all);
        }
    }
    out
}

/// The models that a backend lists, in the format of its kind.
pub fn model_names(backend_type: BackendType, v: &Json) -> (r: Vec<String>)
    ensures
        views(r@) == listed_models(backend_type, v@),
{
    match backend_type {
        BackendType::Ollama => collect_names(v, "models", "name"),
        BackendType::Llamacpp => collect_names(v, "data", "id"),
    }
}

/// The models in the reply of a backend to a request for its list; no reply
/// but a success with a JSON body is taken.
pub open spec fn models_in_reply(
    backend_type: BackendType,
    status: u16,
    body: Option<JsonView>,
) -> Option<Seq<Seq<char>>> {
    match body {
        Some(v) if 200 <= status < 300 => Some(listed_models(backend_type, v)),
        _ => None,
    }
}

/// Reads the reply of a backend to a request for its list of models.
pub fn fetched_models(backend_type: BackendType, status: u16, body: &[u8]) -> (r: Option<
    Vec<String>,
>)
    ensures
        match models_in_reply(backend_type, status, json_of_bytes(body@)) {
            Some(names) => r is Some && views(r->0@) == names,
            None => r is None,
        },
{
    if status < 200 || status >= 300 {
        return None;
    }
    match Json::from_slice(body) {
        Some(v) => Some(model_names(backend_type, &v)),
        None => None,
    }
}

// ---------------------------------------------------------------------
// The registry

/// The backends stand in the order of their priorities.
pub open spec fn sorted(s: Seq<BackendView>) -> bool {
    forall|i: int, j: int|
        0 <= i < j < s.len() ==> (#[trigger] s[i]).config.priority <= (
        #[trigger] s[j]).config.priority
}

/// The healthy backends of a registry stand by priority, as all do.
proof fn lemma_healthy_sorted(backends: Seq<BackendView>)
    requires
        sorted(backends),
    ensures
        sorted(backends.filter(|b: BackendView| b.healthy)),
    decreases backends.len(),
{
    let f = |b: BackendView| b.healthy;
    if backends.len() == 0 {
        lemma_filter_none(backends, f);
    } else {
        let rest = backends.drop_last();
        let last = backends.last();
        lemma_healthy_sorted(rest);
        assert(rest.push(last) =~= backends);
        lemma_filter_push(rest, last, f);
        let kept = rest.filter(f);
        assert forall|i: int| 0 <= i < kept.len() implies (#[trigger] kept[i]).config.priority
            <= last.config.priority by {
            lemma_filter_from(rest, f, i);
            let k = choose|k: int| 0 <= k < rest.len() && #[trigger] rest[k] == kept[i];
            assert(backends[k] == kept[i]);
            assert(backends[backends.len() - 1] == last);
        }
    }
}

/// The backends of one priority, in order.
pub open spec fn of_priority(s: Seq<BackendView>, p: i32) -> Seq<BackendView> {
    s.filter(|b: BackendView| b.config.priority == p)
}

/// A healthy backend that has the model.
pub open spec fn serves(b: BackendView, model: Seq<char>) -> bool {
    b.healthy && b.models.contains(model)
}

/// A backend as a poll leaves it: healthy with the models that it listed, or
/// unhealthy and without models.
pub open spec fn polled(config: BackendConfigView, models: Option<Seq<Seq<char>>>) -> BackendView {
    match models {
        Some(names) => BackendView { config, models: names, healthy: true },
        None => BackendView { config, models: Seq::empty(), healthy: false },
    }
}

/// The models of polls.
pub open spec fn poll_views(polls: Seq<(usize, Option<Vec<String>>)>) -> Seq<
    (usize, Option<Seq<Seq<char>>>),
> {
    Seq::new(
        polls.len(),
        |i: int|
            (
                polls[i].0,
                match polls[i].1 {
                    Some(names) => Some(views(names@)),
                    None => None,
                },
            ),
    )
}

/// The backends as polls leave them, in the order of the configuration; a
/// backend whose poll did not come back at all is left out.
pub open spec fn polled_all(
    configs: Seq<BackendConfigView>,
    polls: Seq<(usize, Option<Seq<Seq<char>>>)>,
) -> Seq<BackendView>
    decreases configs.len(),
{
    if configs.len() == 0 {
        Seq::empty()
    } else {
        let before = polled_all(configs.drop_last(), polls);
        match arrived(polls, configs.len() - 1) {
            Some(models) => before.push(polled(configs.last(), models)),
            None => before,
        }
    }
}

/// The backends of `found`, all of them, by priority; those of one priority stand
/// as they stand in `found`.
pub open spec fn is_registry_of(r: Seq<BackendView>, found: Seq<BackendView>) -> bool {
    &&& sorted(r)
    &&& r.to_multiset() == found.to_multiset()
    &&& forall|p: i32| #[trigger] of_priority(r, p) == of_priority(found, p)
}

/// The backends in the order of their priorities, with an index of models.
#[derive(Debug)]
pub struct ModelRegistry {
    backends: Vec<Backend>,
    /// model name → backend indices sorted by priority (ascending = preferred)
    model_index: Vec<(String, Vec<usize>)>,
}

impl View for ModelRegistry {
    type V = Seq<BackendView>;

    closed spec fn view(&self) -> Seq<BackendView> {
        views(self.backends@)
    }
}

/// The positions under a model are those of the backends that have it, in
/// ascending order.
spec fn indexed(backends: Seq<BackendView>, model: Seq<char>, positions: Seq<usize>) -> bool {
    &&& forall|k: int|
        0 <= k < positions.len() ==> (#[trigger] positions[k]) < backends.len()
            && backends[positions[k] as int].models.contains(model)
    &&& forall|i: int|
        0 <= i < backends.len() && (#[trigger] backends[i]).models.contains(model) ==> exists|k: int|
            0 <= k < positions.len() && #[trigger] positions[k] == i
    &&& forall|j: int, k: int|
        0 <= j < k < positions.len() ==> (#[trigger] positions[j]) <= (#[trigger] positions[k])
}

/// Every model of a backend is in the index once, with its positions.
spec fn index_wf(backends: Seq<BackendView>, index: Seq<(String, Vec<usize>)>) -> bool {
    &&& forall|e: int|
        0 <= e < index.len() ==> indexed(backends, (#[trigger] index[e]).0@, index[e].1@)
    &&& forall|d: int, e: int|
        0 <= d < e < index.len() ==> (#[trigger] index[d]).0@ != (#[trigger] index[e]).0@
    &&& forall|i: int, model: Seq<char>|
        0 <= i < backends.len() && #[trigger] backends[i].models.contains(model) ==> exists|e: int|
            0 <= e < index.len() && (#[trigger] index[e]).0@ == model
}

/// Puts a backend behind those whose priority number is no higher.
fn insert_by_priority(backends: &mut Vec<Backend>, backend: Backend)
    requires
        sorted(views(old(backends)@)),
    ensures
        sorted(views(final(backends)@)),
        views(final(backends)@).to_multiset() == views(old(backends)@).push(
            backend@,
        ).to_multiset(),
        forall|p: i32|
            #[trigger] of_priority(views(final(backends)@), p) == of_priority(
                views(old(backends)@).push(backend@),
                p,
            ),
{
    let ghost before = views(backends@);
    let mut at: usize = backends.len();
    while at > 0 && backends[at - 1].config.priority > backend.config.priority
        invariant
            at <= backends@.len(),
            *backends == *old(backends),
            before == views(backends@),
            forall|k: int|
                at <= k < backends@.len() ==> (#[trigger] backends@[k]).config.priority
                    > backend.config.priority,
        decreases at,
    {
        at -= 1;
    }
    let ghost b = backend@;
    backends.insert(at, backend);
    let ghost after = views(backends@);
    proof {
        let head = before.take(at as int);
        let tail = before.skip(at as int);
        assert(before =~= head + tail);
        assert(after.to_multiset() =~= before.push(b).to_multiset()) by {
            broadcast use vstd::seq_lib::group_to_multiset_ensures;

            assert(after.remove(at as int) =~= before);
            assert(after[at as int] == b);
            assert(after.contains(b));
            assert(after.to_multiset().count(b) > 0);
            assert(after.to_multiset() =~= after.to_multiset().remove(b).insert(b));
        }
        assert(after =~= head + seq![b] + tail);
        assert(before.push(b) =~= head + tail + seq![b]);
        assert forall|i: int, j: int| 0 <= i < j < after.len() implies (
        #[trigger] after[i]).config.priority <= (#[trigger] after[j]).config.priority by {
            if at > 0 {
                assert(before[at - 1].config.priority <= b.config.priority);
            }
            if i < at {
                assert(after[i] == before[i]);
                assert(before[i].config.priority <= before[at - 1].config.priority);
            }
            if j < at {
                assert(after[j] == before[j]);
            }
            if j > at {
                assert(after[j] == before[j - 1]);
            }
            if i > at {
                assert(after[i] == before[i - 1]);
            }
        }
        assert forall|p: i32|
            #[trigger] of_priority(after, p) == of_priority(before.push(b), p) by {
            let f = |x: BackendView| x.config.priority == p;
            Seq::filter_distributes_over_add(head + seq![b], tail, f);
            Seq::filter_distributes_over_add(head, seq![b], f);
            Seq::filter_distributes_over_add(head + tail, seq![b], f);
            Seq::filter_distributes_over_add(head, tail, f);
            if p == b.config.priority {
                assert forall|k: int| 0 <= k < tail.len() implies !f(#[trigger] tail[k]) by {
                    assert(tail[k] == before[at + k]);
                }
                lemma_filter_none(tail, f);
            } else {
                lemma_filter_none(seq![b], f);
            }
            assert(after.filter(f) =~= before.push(b).filter(f));
        }
    }
}

/// The backends with one more model at the last of them.
spec fn with_model(backends: Seq<BackendView>, model: Seq<char>) -> Seq<BackendView> {
    let last = backends.last();
    backends.drop_last().push(BackendView { models: last.models.push(model), ..last })
}

/// A model behind others is among them.
proof fn lemma_push_contains(models: Seq<Seq<char>>, model: Seq<char>)
    ensures
        models.push(model).contains(model),
        forall|m: Seq<char>|
            m != model ==> (#[trigger] models.push(model).contains(m) <==> models.contains(m)),
        forall|m: Seq<char>|
            models.contains(m) ==> #[trigger] models.push(model).contains(m),
{
    assert(models.push(model)[models.len() as int] == model);
    assert forall|m: Seq<char>| models.contains(m) implies #[trigger] models.push(model).contains(
        m,
    ) by {
        let k = choose|k: int| 0 <= k < models.len() && models[k] == m;
        assert(models.push(model)[k] == m);
    }
    assert forall|m: Seq<char>| m != model && #[trigger] models.push(model).contains(m) implies
        models.contains(m) by {
        let k = choose|k: int| 0 <= k < models.push(model).len() && models.push(model)[k] == m;
        assert(models[k] == m);
    }
}

/// Enters one more model of the last backend.
fn add_position(
    index: &mut Vec<(String, Vec<usize>)>,
    model: &String,
    at: usize,
    Ghost(backends): Ghost<Seq<BackendView>>,
)
    requires
        backends.len() == at + 1,
        index_wf(backends, old(index)@),
    ensures
        index_wf(with_model(backends, model@), final(index)@),
{
    let ghost all = with_model(backends, model@);
    proof {
        lemma_push_contains(backends.last().models, model@);
        assert(forall|k: int| 0 <= k < at ==> #[trigger] all[k] == backends[k]);
        assert(all[at as int].models == backends[at as int].models.push(model@));
    }
    let ghost before = index@;
    let mut e: usize = 0;
    while e < index.len()
        invariant
            e <= index@.len(),
            *index == *old(index),
            forall|d: int| 0 <= d < e ==> (#[trigger] index@[d]).0@ != model@,
        ensures
            e <= index@.len(),
            *index == *old(index),
            forall|d: int| 0 <= d < e ==> (#[trigger] index@[d]).0@ != model@,
            e < index@.len() ==> index@[e as int].0@ == model@,
        decreases index.len() - e,
    {
        if text_eq(index[e].0.as_str(), model.as_str()) {
            break ;
        }
        e += 1;
    }
    if e < index.len() {
        index[e].1.push(at);
    } else {
        assert(forall|i: int|
            0 <= i < backends.len() ==> !(#[trigger] backends[i]).models.contains(model@));
        let mut positions: Vec<usize> = Vec::new();
        positions.push(at);
        index.push((model.clone(), positions));
    }
    assert forall|d: int| 0 <= d < index@.len() implies indexed(
        all,
        (#[trigger] index@[d]).0@,
        index@[d].1@,
    ) by {
        let name = index@[d].0@;
        let positions = index@[d].1@;
        if d == e {
            assert(name == model@);
            assert(positions[positions.len() - 1] == at);
            assert forall|i: int|
                0 <= i < all.len() && (#[trigger] all[i]).models.contains(name) implies exists|
                k: int,
            |
                0 <= k < positions.len() && #[trigger] positions[k] == i by {
                if i < at {
                    assert(backends[i].models.contains(name));
                    assert(e < before.len());
                    let old_positions = before[e as int].1@;
                    let k = choose|k: int|
                        0 <= k < old_positions.len() && #[trigger] old_positions[k] == i;
                    assert(positions[k] == i);
                } else {
                    assert(positions[positions.len() - 1] == i);
                }
            }
            if e < before.len() {
                assert(indexed(backends, before[e as int].0@, before[e as int].1@));
            }
        } else {
            assert(index@[d] == before[d]);
            assert(indexed(backends, before[d].0@, before[d].1@));
            assert(name != model@);
        }
    }
    assert forall|i: int, m: Seq<char>|
        0 <= i < all.len() && #[trigger] all[i].models.contains(m) implies exists|d: int|
        0 <= d < index@.len() && (#[trigger] index@[d]).0@ == m by {
        if m == model@ {
            assert(index@[e as int].0@ == m);
        } else {
            assert(backends[i].models.contains(m));
            let d = choose|d: int| 0 <= d < before.len() && (#[trigger] before[d]).0@ == m;
            assert(index@[d].0@ == m);
        }
    }
}

/// Indexes the models of the backends.
fn build_index(backends: &Vec<Backend>) -> (index: Vec<(String, Vec<usize>)>)
    ensures
        index_wf(views(backends@), index@),
{
    let ghost all = views(backends@);
    let mut index: Vec<(String, Vec<usize>)> = Vec::new();
    let mut i: usize = 0;
    while i < backends.len()
        invariant
            i <= backends@.len(),
            all == views(backends@),
            index_wf(all.take(i as int), index@),
        decreases backends.len() - i,
    {
        let backend = &backends[i];
        let ghost mut so_far = all.take(i as int).push(
            BackendView { models: Seq::empty(), ..all[i as int] },
        );
        let mut j: usize = 0;
        proof {
            let done = all.take(i as int);
            assert forall|e: int| 0 <= e < index@.len() implies indexed(
                so_far,
                (#[trigger] index@[e]).0@,
                index@[e].1@,
            ) by {
                assert(indexed(done, index@[e].0@, index@[e].1@));
                assert(forall|k: int| 0 <= k < i ==> #[trigger] so_far[k] == done[k]);
            }
            assert forall|k: int, m: Seq<char>|
                0 <= k < so_far.len() && #[trigger] so_far[k].models.contains(m) implies exists|
                e: int,
            |
                0 <= e < index@.len() && (#[trigger] index@[e]).0@ == m by {
                assert(k < i);
                assert(done[k].models.contains(m));
            }
        }
        assert(all[i as int].models.take(0) =~= Seq::<Seq<char>>::empty());
        while j < backend.models.len()
            invariant
                i < backends@.len(),
                *backend == backends@[i as int],
                j <= backend.models@.len(),
                so_far.len() == i + 1,
                all == views(backends@),
                so_far == all.take(i as int).push(
                    BackendView {
                        models: all[i as int].models.take(j as int),
                        ..all[i as int]
                    },
                ),
                index_wf(so_far, index@),
            decreases backend.models.len() - j,
        {
            add_position(&mut index, &backend.models[j], i, Ghost(so_far));
            proof {
                let model = backend.models@[j as int]@;
                assert(all[i as int].models.take(j + 1) =~= all[i as int].models.take(
                    j as int,
                ).push(model));
                let next = with_model(so_far, model);
                assert(so_far.drop_last() =~= all.take(i as int));
                so_far = next;
            }
            j += 1;
        }
        assert(all[i as int].models.take(j as int) =~= all[i as int].models);
        assert(so_far =~= all.take(i + 1));
        i += 1;
    }
    assert(all.take(all.len() as int) =~= all);
    index
}

impl ModelRegistry {
    #[verifier::type_invariant]
    spec fn wf(self) -> bool {
        &&& sorted(views(self.backends@))
        &&& index_wf(views(self.backends@), self.model_index@)
    }

    /// The registry that polls of the backends give.  A poll comes with the
    /// position of its backend in the configuration, in whatever order.  The
    /// registry holds the backends by priority; backends of the same priority
    /// stand in the order of the configuration.
    pub fn refresh(configs: &[BackendConfig], polls: Vec<(usize, Option<Vec<String>>)>) -> (r:
        ModelRegistry)
        ensures
            is_registry_of(r@, polled_all(views(configs@), poll_views(polls@))),
    {
        let mut backends: Vec<Backend> = Vec::new();
        let ghost all = views(configs@);
        let ghost answers = poll_views(polls@);
        let mut i: usize = 0;
        assert(all.take(0) =~= Seq::<BackendConfigView>::empty());
        assert(views(backends@) =~= Seq::<BackendView>::empty());
        while i < configs.len()
            invariant
                i <= configs@.len(),
                all == views(configs@),
                answers == poll_views(polls@),
                is_registry_of(views(backends@), polled_all(all.take(i as int), answers)),
            decreases configs.len() - i,
        {
            let k = find_arrival(&polls, i);
            let ghost found = polled_all(all.take(i as int), answers);
            assert(all.take(i + 1).drop_last() =~= all.take(i as int));
            proof {
                let f = is_for::<Option<Seq<Seq<char>>>>(i as int);
                assert forall|j: int| 0 <= j < k implies !f(#[trigger] answers[j]) by {
                    assert(polls@[j].0 != i);
                }
                lemma_first_where(answers, f, k as int);
            }
            if k < polls.len() {
                let (models, healthy) = match &polls[k].1 {
                    Some(names) => (names.clone(), true),
                    None => (Vec::new(), false),
                };
                let backend = Backend { config: configs[i].clone(), models, healthy };
                let ghost b = polled(all[i as int], answers[k as int].1);
                assert(backend@.models =~= b.models);
                assert(backend@ == b);
                let ghost before = views(backends@);
                insert_by_priority(&mut backends, backend);
                proof {
                    assert(views(backends@).to_multiset() == found.push(b).to_multiset()) by {
                        broadcast use vstd::seq_lib::group_to_multiset_ensures;

                    }
                    assert forall|p: i32|
                        #[trigger] of_priority(views(backends@), p) == of_priority(
                            found.push(b),
                            p,
                        ) by {
                        let f = |x: BackendView| x.config.priority == p;
                        lemma_filter_push(before, b, f);
                        lemma_filter_push(found, b, f);
                        assert(of_priority(before, p) == of_priority(found, p));
                    }
                }
            }
            i += 1;
        }
        assert(all.take(all.len() as int) =~= all);
        let model_index = build_index(&backends);
        ModelRegistry { backends, model_index }
    }

    /// All the backends, by priority.
    pub fn backends(&self) -> (r: &Vec<Backend>)
        ensures
            views(r@) == self@,
    {
        &self.backends
    }

    /// Best healthy backend that has this model (lowest priority number).
    pub fn resolve_backend(&self, model: &str) -> (r: Option<&BackendConfig>)
        ensures
            match first_where(self@, |b: BackendView| serves(b, model@)) {
                Some(b) => r is Some && r->0@ == b.config && forall|i: int|
                    0 <= i < self@.len() && serves(#[trigger] self@[i], model@)
                        ==> b.config.priority <= self@[i].config.priority,
                None => r is None,
            },
    {
        proof {
            use_type_invariant(self);
        }
        let ghost all = self@;
        let ghost f = |b: BackendView| serves(b, model@);
        let mut e: usize = 0;
        while e < self.model_index.len()
            invariant
                e <= self.model_index@.len(),
                all == views(self.backends@),
                self@ == all,
                f == (|b: BackendView| serves(b, model@)),
                sorted(all),
                index_wf(all, self.model_index@),
                forall|d: int| 0 <= d < e ==> (#[trigger] self.model_index@[d]).0@ != model@,
            decreases self.model_index.len() - e,
        {
            if text_eq(self.model_index[e].0.as_str(), model) {
                let positions = &self.model_index[e].1;
                assert(indexed(all, model@, positions@));
                let mut k: usize = 0;
                while k < positions.len()
                    invariant
                        k <= positions@.len(),
                        all == views(self.backends@),
                        self@ == all,
                        f == (|b: BackendView| serves(b, model@)),
                        sorted(all),
                        indexed(all, model@, positions@),
                        forall|j: int|
                            0 <= j < k ==> !all[(#[trigger] positions@[j]) as int].healthy,
                    decreases positions.len() - k,
                {
                    assert(positions@[k as int] < all.len());
                    if self.backends[positions[k]].healthy {
                        let p = positions[k];
                        assert(all[p as int] == self.backends@[p as int]@);
                        proof {
                            assert forall|i: int| 0 <= i < p implies !f(#[trigger] all[i]) by {
                                if f(all[i]) {
                                    let j = choose|j: int|
                                        0 <= j < positions@.len() && #[trigger] positions@[j] == i;
                                    assert(positions@[j] < positions@[k as int]);
                                }
                            }
                            lemma_first_where(all, f, p as int);
                        }
                        return Some(&self.backends[p].config);
                    }
                    assert(all[positions@[k as int] as int]
                        == self.backends@[positions@[k as int] as int]@);
                    k += 1;
                }
                proof {
                    assert forall|i: int| 0 <= i < all.len() implies !f(#[trigger] all[i]) by {
                        if f(all[i]) {
                            let j = choose|j: int|
                                0 <= j < positions@.len() && #[trigger] positions@[j] == i;
                            assert(!all[positions@[j] as int].healthy);
                        }
                    }
                    lemma_first_where(all, f, all.len() as int);
                }
                return None;
            }
            e += 1;
        }
        proof {
            assert forall|i: int| 0 <= i < all.len() implies !f(#[trigger] all[i]) by {
                if f(all[i]) {
                    assert(all[i].models.contains(model@));
                }
            }
            lemma_first_where(all, f, all.len() as int);
        }
        None
    }

    /// Lowest priority-number healthy backend (fallback for unknown models).
    pub fn default_backend(&self) -> (r: Option<&BackendConfig>)
        ensures
            match first_where(self@, |b: BackendView| b.healthy) {
                Some(b) => r is Some && r->0@ == b.config && forall|i: int|
                    0 <= i < self@.len() && (#[trigger] self@[i]).healthy ==> b.config.priority
                        <= self@[i].config.priority,
                None => r is None,
            },
    {
        proof {
            use_type_invariant(self);
        }
        let ghost all = self@;
        let ghost f = |b: BackendView| b.healthy;
        let mut i: usize = 0;
        while i < self.backends.len()
            invariant
                i <= self.backends@.len(),
                all == views(self.backends@),
                self@ == all,
                f == (|b: BackendView| b.healthy),
                sorted(all),
                forall|k: int| 0 <= k < i ==> !f(#[trigger] all[k]),
            decreases self.backends.len() - i,
        {
            assert(all[i as int] == self.backends@[i as int]@);
            if self.backends[i].healthy {
                proof {
                    lemma_first_where(all, f, i as int);
                }
                return Some(&self.backends[i].config);
            }
            i += 1;
        }
        proof {
            lemma_first_where(all, f, all.len() as int);
        }
        None
    }

    /// All healthy backends (for fan-out aggregation).
    pub fn all_healthy_backends(&self) -> (r: Vec<&Backend>)
        ensures
            views(r@) == self@.filter(|b: BackendView| b.healthy),
            sorted(views(r@)),
    {
        proof {
            use_type_invariant(self);
            lemma_healthy_sorted(self@);
        }
        let ghost all = self@;
        let ghost f = |b: BackendView| b.healthy;
        let mut out: Vec<&Backend> = Vec::new();
        let mut i: usize = 0;
        proof {
            lemma_filter_none(all.take(0), f);
        }
        assert(views(out@) =~= Seq::<BackendView>::empty());
        while i < self.backends.len()
            invariant
                i <= self.backends@.len(),
                all == views(self.backends@),
                f == (|b: BackendView| b.healthy),
                views(out@) == all.take(i as int).filter(f),
            decreases self.backends.len() - i,
        {
            let ghost before = views(out@);
            let backend = &self.backends[i];
            proof {
                assert(all.take(i + 1) =~= all.take(i as int).push(backend@));
                lemma_filter_push(all.take(i as int), backend@, f);
            }
            if backend.healthy {
                out.push(backend);
                assert(views(out@) =~= before.push(backend@));
            }
            i += 1;
        }
        assert(all.take(all.len() as int) =~= all);
        out
    }

    /// All healthy Ollama backends (for `/api/ps` aggregation).
    pub fn all_healthy_ollama_backends(&self) -> (r: Vec<&Backend>)
        ensures
            views(r@) == self@.filter(
                |b: BackendView| b.healthy && b.config.backend_type == BackendType::Ollama,
            ),
    {
        let ghost all = self@;
        let ghost f = |b: BackendView|
            b.healthy && b.config.backend_type == BackendType::Ollama;
        let mut out: Vec<&Backend> = Vec::new();
        let mut i: usize = 0;
        proof {
            lemma_filter_none(all.take(0), f);
        }
        assert(views(out@) =~= Seq::<BackendView>::empty());
        while i < self.backends.len()
            invariant
                i <= self.backends@.len(),
                all == views(self.backends@),
                f == (|b: BackendView|
                    b.healthy && b.config.backend_type == BackendType::Ollama),
                views(out@) == all.take(i as int).filter(f),
            decreases self.backends.len() - i,
        {
            let ghost before = views(out@);
            let backend = &self.backends[i];
            proof {
                assert(all.take(i + 1) =~= all.take(i as int).push(backend@));
                lemma_filter_push(all.take(i as int), backend@, f);
            }
            if backend.healthy && backend.config.backend_type == BackendType::Ollama {
                out.push(backend);
                assert(views(out@) =~= before.push(backend@));
            }
            i += 1;
        }
        assert(all.take(all.len() as int) =~= all);
        out
    }
}

// ---------------------------------------------------------------------
// The order is determined

/// The first backend in a sorted list is the first of its priority, and no
/// backend has a lower one.
proof fn lemma_sorted_first(s: Seq<BackendView>)
    requires
        sorted(s),
        s.len() > 0,
    ensures
        of_priority(s, s[0].config.priority) == seq![s[0]] + of_priority(
            s.skip(1),
            s[0].config.priority,
        ),
        forall|p: i32|
            p != s[0].config.priority ==> #[trigger] of_priority(s, p) == of_priority(
                s.skip(1),
                p,
            ),
        forall|p: i32|
            p < s[0].config.priority ==> (#[trigger] of_priority(s, p)).len() == 0,
        sorted(s.skip(1)),
{
    assert(s =~= seq![s[0]] + s.skip(1));
    assert forall|p: i32|
        #![trigger of_priority(s, p)]
        (p == s[0].config.priority ==> of_priority(s, p) == seq![s[0]] + of_priority(
            s.skip(1),
            p,
        )) && (p != s[0].config.priority ==> of_priority(s, p) == of_priority(s.skip(1), p)) by {
        let f = |b: BackendView| b.config.priority == p;
        Seq::filter_distributes_over_add(seq![s[0]], s.skip(1), f);
        if p == s[0].config.priority {
            let none = Seq::<BackendView>::empty();
            lemma_filter_push(none, s[0], f);
            lemma_filter_none(none, f);
            assert(none.push(s[0]) =~= seq![s[0]]);
        } else {
            lemma_filter_none(seq![s[0]], f);
            assert(of_priority(s, p) =~= of_priority(s.skip(1), p));
        }
    }
    assert forall|p: i32| p < s[0].config.priority implies (
    #[trigger] of_priority(s, p)).len() == 0 by {
        lemma_filter_none(s, |b: BackendView| b.config.priority == p);
    }
}

/// Two lists by priority that have the same backends of every priority, in the
/// same order, are the same.
pub proof fn law_sorted_determined(a: Seq<BackendView>, b: Seq<BackendView>)
    requires
        sorted(a),
        sorted(b),
        forall|p: i32| #[trigger] of_priority(a, p) == of_priority(b, p),
    ensures
        a == b,
    decreases a.len(),
{
    if a.len() == 0 || b.len() == 0 {
        if a.len() > 0 {
            lemma_sorted_first(a);
            lemma_filter_none(b, |x: BackendView| x.config.priority == a[0].config.priority);
            assert(of_priority(a, a[0].config.priority).len() > 0);
        }
        if b.len() > 0 {
            lemma_sorted_first(b);
            lemma_filter_none(a, |x: BackendView| x.config.priority == b[0].config.priority);
            assert(of_priority(a, b[0].config.priority).len() > 0);
        }
        assert(a =~= b);
    } else {
        lemma_sorted_first(a);
        lemma_sorted_first(b);
        let pa = a[0].config.priority;
        let pb = b[0].config.priority;
        assert(of_priority(a, pa).len() > 0);
        assert(of_priority(b, pb).len() > 0);
        assert(of_priority(b, pa).len() > 0);
        assert(of_priority(a, pb).len() > 0);
        assert(pa == pb);
        assert(of_priority(a, pa)[0] == a[0]);
        assert(of_priority(b, pa)[0] == b[0]);
        let (x, y) = (a.skip(1), b.skip(1));
        assert forall|p: i32| #[trigger] of_priority(x, p) == of_priority(y, p) by {
            assert(of_priority(a, p) == of_priority(b, p));
            if p == pa {
                assert(of_priority(x, p) =~= of_priority(a, p).skip(1));
                assert(of_priority(y, p) =~= of_priority(b, p).skip(1));
            }
        }
        law_sorted_determined(x, y);
        assert(a =~= seq![a[0]] + x);
        assert(b =~= seq![b[0]] + y);
    }
}

/// Polls that bring the same answers in another order leave the same backends.
proof fn lemma_polled_all_order(
    configs: Seq<BackendConfigView>,
    a: Seq<(usize, Option<Seq<Seq<char>>>)>,
    b: Seq<(usize, Option<Seq<Seq<char>>>)>,
)
    requires
        same_arrivals(a, b),
    ensures
        polled_all(configs, a) == polled_all(configs, b),
    decreases configs.len(),
{
    if configs.len() > 0 {
        lemma_polled_all_order(configs.drop_last(), a, b);
        law_arrival_order(a, b, configs.len() - 1);
    }
}

/// The registry is determined by the configuration and the answers of the
/// backends: in whatever order the answers come, two registries hold the same
/// backends in the same order, resolve every model to the same backend and have
/// the same default.
pub proof fn law_refresh_determined(
    configs: Seq<BackendConfigView>,
    a: Seq<(usize, Option<Seq<Seq<char>>>)>,
    b: Seq<(usize, Option<Seq<Seq<char>>>)>,
    r1: Seq<BackendView>,
    r2: Seq<BackendView>,
    model: Seq<char>,
)
    requires
        same_arrivals(a, b),
        is_registry_of(r1, polled_all(configs, a)),
        is_registry_of(r2, polled_all(configs, b)),
    ensures
        r1 == r2,
        first_where(r1, |x: BackendView| serves(x, model)) == first_where(
            r2,
            |x: BackendView| serves(x, model),
        ),
        first_where(r1, |x: BackendView| x.healthy) == first_where(
            r2,
            |x: BackendView| x.healthy,
        ),
{
    lemma_polled_all_order(configs, a, b);
    let found = polled_all(configs, a);
    assert forall|p: i32| #[trigger] of_priority(r1, p) == of_priority(r2, p) by {
        assert(of_priority(r1, p) == of_priority(found, p));
        assert(of_priority(r2, p) == of_priority(found, p));
    }
    law_sorted_determined(r1, r2);
}

/// A backend serves a model if it is healthy and lists the model, and only then.
pub proof fn law_serves(b: BackendView, model: Seq<char>)
    ensures
        serves(b, model) <==> b.healthy && exists|k: int|
            0 <= k < b.models.len() && #[trigger] b.models[k] == model,
{
    if serves(b, model) {
        let k = choose|k: int| 0 <= k < b.models.len() && b.models[k] == model;
        assert(b.models[k] == model);
    }
}

/// Where every configured backend was polled and came back, there are as many
/// backends as configurations, in their order: one that answered is healthy and
/// has the models that it listed, and one that did not is not healthy and has
/// none.
pub proof fn law_polls(
    configs: Seq<BackendConfigView>,
    polls: Seq<(usize, Option<Seq<Seq<char>>>)>,
    i: int,
)
    requires
        polls.len() == configs.len(),
        forall|k: int| 0 <= k < polls.len() ==> (#[trigger] polls[k]).0 == k,
    ensures
        polled_all(configs, polls).len() == configs.len(),
        0 <= i < configs.len() ==> {
            let b = polled_all(configs, polls)[i];
            &&& b.config == configs[i]
            &&& b.healthy <==> polls[i].1 is Some
            &&& b.models == match polls[i].1 {
                Some(names) => names,
                None => Seq::empty(),
            }
        },
{
    lemma_polls(configs, polls, i);
}

/// The backends of the first configurations, where all came back in order.
proof fn lemma_polls(
    configs: Seq<BackendConfigView>,
    polls: Seq<(usize, Option<Seq<Seq<char>>>)>,
    i: int,
)
    requires
        polls.len() >= configs.len(),
        forall|k: int| 0 <= k < polls.len() ==> (#[trigger] polls[k]).0 == k,
    ensures
        polled_all(configs, polls).len() == configs.len(),
        0 <= i < configs.len() ==> {
            let b = polled_all(configs, polls)[i];
            &&& b.config == configs[i]
            &&& b.healthy <==> polls[i].1 is Some
            &&& b.models == match polls[i].1 {
                Some(names) => names,
                None => Seq::empty(),
            }
        },
    decreases configs.len(),
{
    if configs.len() > 0 {
        let n = configs.len() - 1;
        lemma_polls(configs.drop_last(), polls, i);
        let f = is_for::<Option<Seq<Seq<char>>>>(n);
        assert forall|k: int| 0 <= k < n implies !f(#[trigger] polls[k]) by {}
        assert(polls[n].0 == n);
        lemma_first_where(polls, f, n);
    }
}

/// A poll that never came back leaves its backend out, and no backend is there
/// without a poll: every backend is that of a configuration and of the first
/// poll with its number.
pub proof fn law_polled_backends(
    configs: Seq<BackendConfigView>,
    polls: Seq<(usize, Option<Seq<Seq<char>>>)>,
    b: BackendView,
)
    ensures
        polled_all(configs, polls).contains(b) <==> exists|i: int, k: int|
            0 <= i < configs.len() && 0 <= k < polls.len() && (#[trigger] polls[k]).0 == i && (
            forall|j: int| 0 <= j < k ==> (#[trigger] polls[j]).0 != i) && b.config
                == #[trigger] configs[i] && b.healthy == (polls[k].1 is Some) && b.models
                == match polls[k].1 {
                Some(names) => names,
                None => Seq::empty(),
            },
    decreases configs.len(),
{
    if configs.len() > 0 {
        let n = configs.len() - 1;
        let rest = configs.drop_last();
        let before = polled_all(rest, polls);
        let all = polled_all(configs, polls);
        law_polled_backends(rest, polls, b);
        let f = is_for::<Option<Seq<Seq<char>>>>(n);
        lemma_first_where_holds(polls, f);
        if all.contains(b) {
            let at = choose|at: int| 0 <= at < all.len() && all[at] == b;
            if at < before.len() {
                assert(before[at] == b);
                let (i, k) = choose|i: int, k: int|
                    0 <= i < rest.len() && 0 <= k < polls.len() && (#[trigger] polls[k]).0 == i
                        && (forall|j: int| 0 <= j < k ==> (#[trigger] polls[j]).0 != i)
                        && b.config == #[trigger] rest[i] && b.healthy == (polls[k].1 is Some)
                        && b.models == match polls[k].1 {
                        Some(names) => names,
                        None => Seq::empty(),
                    };
                assert(configs[i] == rest[i]);
                assert(polls[k].0 == i);
            } else {
                lemma_first_position(polls, n);
                let k = choose|k: int|
                    0 <= k < polls.len() && (#[trigger] polls[k]).0 == n && (forall|j: int|
                        0 <= j < k ==> (#[trigger] polls[j]).0 != n);
                lemma_first_where(polls, f, k);
                assert(configs[n] == b.config);
                assert(polls[k].0 == n);
            }
        }
        if exists|i: int, k: int|
            0 <= i < configs.len() && 0 <= k < polls.len() && (#[trigger] polls[k]).0 == i && (
            forall|j: int| 0 <= j < k ==> (#[trigger] polls[j]).0 != i) && b.config
                == #[trigger] configs[i] && b.healthy == (polls[k].1 is Some) && b.models
                == match polls[k].1 {
                Some(names) => names,
                None => Seq::empty(),
            } {
            let (i, k) = choose|i: int, k: int|
                0 <= i < configs.len() && 0 <= k < polls.len() && (#[trigger] polls[k]).0 == i && (
                forall|j: int| 0 <= j < k ==> (#[trigger] polls[j]).0 != i) && b.config
                    == #[trigger] configs[i] && b.healthy == (polls[k].1 is Some) && b.models
                    == match polls[k].1 {
                    Some(names) => names,
                    None => Seq::empty(),
                };
            if i < n {
                assert(rest[i] == configs[i]);
                assert(before.contains(b));
                let at = choose|at: int| 0 <= at < before.len() && before[at] == b;
                assert(all[at] == b);
            } else {
                lemma_first_where(polls, f, k);
                assert(all[before.len() as int] == b);
            }
        }
    }
}

/// A poll that arrived has a first position.
proof fn lemma_first_position(polls: Seq<(usize, Option<Seq<Seq<char>>>)>, n: int)
    requires
        arrived(polls, n) is Some,
    ensures
        exists|k: int|
            0 <= k < polls.len() && (#[trigger] polls[k]).0 == n && (forall|j: int|
                0 <= j < k ==> (#[trigger] polls[j]).0 != n),
    decreases polls.len(),
{
    if polls[0].0 == n {
        assert(polls[0].0 == n);
    } else {
        let rest = polls.skip(1);
        lemma_first_position(rest, n);
        let k = choose|k: int|
            0 <= k < rest.len() && (#[trigger] rest[k]).0 == n && (forall|j: int|
                0 <= j < k ==> (#[trigger] rest[j]).0 != n);
        assert(polls[k + 1].0 == n);
        assert forall|j: int| 0 <= j < k + 1 implies (#[trigger] polls[j]).0 != n by {
            if j > 0 {
                assert(rest[j - 1] == polls[j]);
            }
        }
    }
}

/// A registry has the backends that were found, each as often as it was found,
/// and none comes before one with a lower priority number.
pub proof fn law_registry_order(r: Seq<BackendView>, found: Seq<BackendView>, i: int, j: int)
    requires
        is_registry_of(r, found),
    ensures
        0 <= i < j < r.len() ==> r[i].config.priority <= r[j].config.priority,
        r.len() == found.len(),
        forall|b: BackendView| #[trigger] r.contains(b) <==> found.contains(b),
{
    broadcast use vstd::seq_lib::group_to_multiset_ensures;

    assert(r.to_multiset().len() == r.len());
    assert(found.to_multiset().len() == found.len());
    assert forall|b: BackendView| #[trigger] r.contains(b) <==> found.contains(b) by {
        assert(r.to_multiset().count(b) == found.to_multiset().count(b));
    }
}

/// The models in the reply of a backend: for Ollama the texts under `name` in the
/// array under `models`, for llama.cpp those under `id` in the array under
/// `data`, all of them, in order; only a success with a JSON body counts.
pub proof fn law_listed_models(items: Seq<JsonView>, v: JsonView, status: u16, kind: BackendType)
    requires
        v.member(
            match kind {
                BackendType::Ollama => "models"@,
                BackendType::Llamacpp => "data"@,
            },
        ) == Some(JsonView::Array(items)),
    ensures
        200 <= status <= 299 ==> models_in_reply(kind, status, Some(v)) is Some,
        status < 200 || status > 299 ==> models_in_reply(kind, status, Some(v)) is None,
        models_in_reply(kind, status, None) is None,
        ({
            let key = match kind {
                BackendType::Ollama => "name"@,
                BackendType::Llamacpp => "id"@,
            };
            let names = listed_models(kind, v);
            &&& models_in_reply(kind, 200, Some(v)) == Some(names)
            &&& (forall|i: int|
                0 <= i < items.len() ==> (#[trigger] items[i]).member(key) is Some && items[i].member(
                    key,
                )->0 is Str) ==> names.len() == items.len() && forall|i: int|
                0 <= i < items.len() ==> items[i].member(key) == Some(
                    JsonView::Str(#[trigger] names[i]),
                )
            &&& forall|name: Seq<char>|
                #[trigger] names.contains(name) <==> exists|i: int|
                    0 <= i < items.len() && (#[trigger] items[i]).member(key) == Some(
                        JsonView::Str(name),
                    )
        }),
{
    let key = match kind {
        BackendType::Ollama => "name"@,
        BackendType::Llamacpp => "id"@,
    };
    lemma_names(items, key);
}

/// A reply without the array of its kind lists no models.
pub proof fn law_no_models_listed(v: JsonView)
    ensures
        !(v.member("models"@) is Some && v.member("models"@)->0 is Array) ==> listed_models(
            BackendType::Ollama,
            v,
        ).len() == 0,
        !(v.member("data"@) is Some && v.member("data"@)->0 is Array) ==> listed_models(
            BackendType::Llamacpp,
            v,
        ).len() == 0,
{
}

/// The texts under a name in a sequence of values.
proof fn lemma_names(items: Seq<JsonView>, key: Seq<char>)
    ensures
        ({
            let names = items.filter_map(|m: JsonView| text_of(m.member(key)));
            &&& (forall|i: int|
                0 <= i < items.len() ==> (#[trigger] items[i]).member(key) is Some && items[i].member(
                    key,
                )->0 is Str) ==> names.len() == items.len() && forall|i: int|
                0 <= i < items.len() ==> items[i].member(key) == Some(
                    JsonView::Str(#[trigger] names[i]),
                )
            &&& forall|name: Seq<char>|
                #[trigger] names.contains(name) <==> exists|i: int|
                    0 <= i < items.len() && (#[trigger] items[i]).member(key) == Some(
                        JsonView::Str(name),
                    )
        }),
    decreases items.len(),
{
    let f = |m: JsonView| text_of(m.member(key));
    let names = items.filter_map(f);
    if items.len() > 0 {
        let rest = items.drop_last();
        let last = items.last();
        let n = items.len() - 1;
        lemma_names(rest, key);
        let before = rest.filter_map(f);
        assert(items[n] == last);
        if forall|i: int|
            0 <= i < items.len() ==> (#[trigger] items[i]).member(key) is Some && items[i].member(
                key,
            )->0 is Str {
            assert forall|i: int| 0 <= i < rest.len() implies (#[trigger] rest[i]).member(
                key,
            ) is Some && rest[i].member(key)->0 is Str by {
                assert(rest[i] == items[i]);
            }
            assert forall|i: int| 0 <= i < items.len() implies items[i].member(key) == Some(
                JsonView::Str(#[trigger] names[i]),
            ) by {
                if i < n {
                    assert(names[i] == before[i]);
                    assert(rest[i] == items[i]);
                }
            }
        }
        assert forall|name: Seq<char>|
            #[trigger] names.contains(name) <==> exists|i: int|
                0 <= i < items.len() && (#[trigger] items[i]).member(key) == Some(
                    JsonView::Str(name),
                ) by {
            if names.contains(name) {
                let k = choose|k: int| 0 <= k < names.len() && names[k] == name;
                if k < before.len() {
                    assert(before[k] == name);
                    assert(before.contains(name));
                    let i = choose|i: int|
                        0 <= i < rest.len() && (#[trigger] rest[i]).member(key) == Some(
                            JsonView::Str(name),
                        );
                    assert(items[i].member(key) == Some(JsonView::Str(name)));
                } else {
                    assert(items[n].member(key) == Some(JsonView::Str(name)));
                }
            }
            if exists|i: int|
                0 <= i < items.len() && (#[trigger] items[i]).member(key) == Some(
                    JsonView::Str(name),
                ) {
                let i = choose|i: int|
                    0 <= i < items.len() && (#[trigger] items[i]).member(key) == Some(
                        JsonView::Str(name),
                    );
                if i < n {
                    assert(rest[i].member(key) == Some(JsonView::Str(name)));
                    assert(before.contains(name));
                    let k = choose|k: int| 0 <= k < before.len() && before[k] == name;
                    assert(names[k] == name);
                } else {
                    assert(names[before.len() as int] == name);
                }
            }
        }
    }
}

/// Each kind of backend is asked for its models in its own way.
pub proof fn law_models_path(kind: BackendType)
    ensures
        kind == BackendType::Ollama ==> models_path(kind) == "/api/tags"@,
        kind == BackendType::Llamacpp ==> models_path(kind) == "/v1/models"@,
{
}

/// Backends of one priority stand in a registry as they stand in the configuration.
pub proof fn law_ties_as_configured(r: Seq<BackendView>, found: Seq<BackendView>, p: i32)
    requires
        is_registry_of(r, found),
    ensures
        r.filter(|b: BackendView| b.config.priority == p) == found.filter(
            |b: BackendView| b.config.priority == p,
        ),
{
    assert(of_priority(r, p) == of_priority(found, p));
}

/// The models of backends and of polls have all that these have.
pub proof fn law_registry_models(b: Backend, polls: Seq<(usize, Option<Vec<String>>)>, i: int)
    ensures
        b@.config == b.config@,
        b@.models == views(b.models@),
        b@.healthy == b.healthy,
        poll_views(polls).len() == polls.len(),
        0 <= i < polls.len() ==> {
            &&& poll_views(polls)[i].0 == polls[i].0
            &&& polls[i].1 is Some ==> poll_views(polls)[i].1 == Some(views(polls[i].1->0@))
            &&& polls[i].1 is None ==> poll_views(polls)[i].1 is None
        },
{
}

/// Polled backends stand in the order of the configuration: those of some
/// configurations come before those of configurations behind them.
pub proof fn law_polls_in_order(
    configs: Seq<BackendConfigView>,
    config: BackendConfigView,
    polls: Seq<(usize, Option<Seq<Seq<char>>>)>,
)
    ensures
        ({
            let before = polled_all(configs, polls);
            let all = polled_all(configs.push(config), polls);
            &&& before.len() <= all.len() <= before.len() + 1
            &&& all.take(before.len() as int) == before
        }),
{
    let before = polled_all(configs, polls);
    let all = polled_all(configs.push(config), polls);
    assert(configs.push(config).drop_last() =~= configs);
    assert(all.take(before.len() as int) =~= before);
}

} // verus!
