//! The models that turn code into vectors, and which of them is used.

use crate::keyed::{key_place, lemma_key_place, lemma_key_place_is};
use crate::sorting::{by_text, order_texts, places, sorted_order};
use crate::text::{lemma_texts_push, same_text, texts};
use vstd::prelude::*;
use vstd::string::*;

verus! {

broadcast use lemma_texts_push;

/// Who runs a model.
#[derive(Debug, PartialEq, Eq)]
pub enum EmbeddingProvider {
    OpenAI { model: String },
    Local { path: String },
    HuggingFace { model_id: String },
    Mock,
}

/// Who runs a model.
pub enum ProviderModel {
    OpenAI { model: Seq<char> },
    Local { path: Seq<char> },
    HuggingFace { model_id: Seq<char> },
    Mock,
}

impl View for EmbeddingProvider {
    type V = ProviderModel;

    open spec fn view(&self) -> ProviderModel {
        match *self {
            EmbeddingProvider::OpenAI { model } => ProviderModel::OpenAI { model: model@ },
            EmbeddingProvider::Local { path } => ProviderModel::Local { path: path@ },
            EmbeddingProvider::HuggingFace { model_id } => ProviderModel::HuggingFace {
                model_id: model_id@,
            },
            EmbeddingProvider::Mock => ProviderModel::Mock,
        }
    }
}

impl Clone for EmbeddingProvider {
    fn clone(&self) -> (r: EmbeddingProvider)
        ensures
            r == *self,
    {
        match self {
            EmbeddingProvider::OpenAI { model } => EmbeddingProvider::OpenAI {
                model: model.clone(),
            },
            EmbeddingProvider::Local { path } => EmbeddingProvider::Local { path: path.clone() },
            EmbeddingProvider::HuggingFace { model_id } => EmbeddingProvider::HuggingFace {
                model_id: model_id.clone(),
            },
            EmbeddingProvider::Mock => EmbeddingProvider::Mock,
        }
    }
}

/// A model that turns code into vectors.
#[derive(Debug, PartialEq, Eq)]
pub struct EmbeddingModelConfig {
    pub model_name: String,
    pub dimensions: usize,
    pub provider: EmbeddingProvider,
    pub batch_size: usize,
}

/// A model that turns code into vectors.
pub struct EmbeddingModel {
    pub model_name: Seq<char>,
    pub dimensions: usize,
    pub provider: ProviderModel,
    pub batch_size: usize,
}

impl View for EmbeddingModelConfig {
    type V = EmbeddingModel;

    open spec fn view(&self) -> EmbeddingModel {
        EmbeddingModel {
            model_name: self.model_name@,
            dimensions: self.dimensions,
            provider: self.provider@,
            batch_size: self.batch_size,
        }
    }
}

impl Clone for EmbeddingModelConfig {
    fn clone(&self) -> (r: EmbeddingModelConfig)
        ensures
            r == *self,
    {
        EmbeddingModelConfig {
            model_name: self.model_name.clone(),
            dimensions: self.dimensions,
            provider: self.provider.clone(),
            batch_size: self.batch_size,
        }
    }
}

/// The models.
pub open spec fn config_models(v: Seq<EmbeddingModelConfig>) -> Seq<EmbeddingModel> {
    v.map_values(|c: EmbeddingModelConfig| c@)
}

/// The models.
pub open spec fn config_ref_models(v: Seq<&EmbeddingModelConfig>) -> Seq<EmbeddingModel> {
    v.map_values(|c: &EmbeddingModelConfig| c@)
}

/// The models that are known by the names that they were registered under, and
/// the name of the one that is used.
pub struct SelectorModel {
    pub keys: Seq<Seq<char>>,
    pub models: Seq<EmbeddingModel>,
    pub active: Seq<char>,
}

/// The model that is used where none is known.
pub open spec fn unconfigured() -> EmbeddingModel {
    EmbeddingModel {
        model_name: "unconfigured"@,
        dimensions: 0,
        provider: ProviderModel::Mock,
        batch_size: 0,
    }
}

impl SelectorModel {
    /// Each name stands for one model.
    pub open spec fn wf(self) -> bool {
        &&& self.keys.len() == self.models.len()
        &&& self.keys.no_duplicates()
    }

    /// The model that is used.
    pub open spec fn used(self) -> EmbeddingModel {
        if key_place(self.keys, self.active) < self.keys.len() {
            self.models[key_place(self.keys, self.active)]
        } else {
            unconfigured()
        }
    }

    /// After a model was registered: in place of one of its name, and used if
    /// none was.
    pub open spec fn registered(self, name: Seq<char>, m: EmbeddingModel) -> SelectorModel {
        let at = key_place(self.keys, name);
        SelectorModel {
            keys: if at < self.keys.len() {
                self.keys
            } else {
                self.keys.push(name)
            },
            models: if at < self.keys.len() {
                self.models.update(at, m)
            } else {
                self.models.push(m)
            },
            active: if self.active.len() == 0 {
                name
            } else {
                self.active
            },
        }
    }

    /// The models in the order of their own names.
    pub open spec fn listed(self) -> Seq<EmbeddingModel> {
        let names = self.models.map_values(|m: EmbeddingModel| m.model_name);
        sorted_order(names.len(), by_text(names)).map_values(|i: int| self.models[i])
    }
}

/// The first model that is registered is used, and one that is set to be used
/// is used as it was registered.
pub proof fn law_registered_models_can_be_used(s: SelectorModel, name: Seq<char>, m: EmbeddingModel)
    requires
        s.wf(),
    ensures
        s.registered(name, m).wf(),
        s.registered(name, m).keys.contains(name),
        (SelectorModel { active: name, ..s.registered(name, m) }).used() == m,
        s.active.len() == 0 ==> s.registered(name, m).used() == m,
{
    lemma_key_place(s.keys, name);
    let r = s.registered(name, m);
    let at = key_place(s.keys, name);
    assert forall|i: int| 0 <= i < at implies #[trigger] r.keys[i] != name by {
        assert(s.keys[i] != name);
    }
    lemma_key_place_is(r.keys, name, at);
    assert(r.keys[at] == name);
}

/// The models that are known, and which of them is used.
#[derive(Debug)]
pub struct EmbeddingSelector {
    keys: Vec<String>,
    models: Vec<EmbeddingModelConfig>,
    active: String,
}

impl View for EmbeddingSelector {
    type V = SelectorModel;

    closed spec fn view(&self) -> SelectorModel {
        SelectorModel {
            keys: texts(self.keys@),
            models: config_models(self.models@),
            active: self.active@,
        }
    }
}

impl EmbeddingSelector {
    /// No models.
    pub fn new() -> (r: EmbeddingSelector)
        ensures
            r@.wf(),
            r@.keys.len() == 0,
            r@.active.len() == 0,
    {
        EmbeddingSelector { keys: Vec::new(), models: Vec::new(), active: String::new() }
    }

    fn place(&self, name: &str) -> (r: usize)
        ensures
            r == key_place(self@.keys, name@),
            r <= self@.keys.len() == self.keys@.len(),
    {
        let ghost all = self@.keys;
        let mut i: usize = 0;
        assert(all.skip(0) =~= all);
        while i < self.keys.len()
            invariant
                i <= self.keys@.len(),
                all == texts(self.keys@),
                key_place(all, name@) == i + key_place(all.skip(i as int), name@),
            decreases self.keys@.len() - i,
        {
            proof {
                assert(all.skip(i as int)[0] == self.keys@[i as int]@);
                assert(all.skip(i as int).skip(1) =~= all.skip(i + 1));
            }
            if same_text(self.keys[i].as_str(), name) {
                return i;
            }
            i += 1;
        }
        i
    }

    /// Registers a model under a name.
    pub fn register_model(&mut self, name: &str, config: EmbeddingModelConfig)
        requires
            old(self)@.wf(),
        ensures
            final(self)@ == old(self)@.registered(name@, config@),
            final(self)@.wf(),
    {
        let ghost before = self@;
        let ghost m = config@;
        let i: usize = self.place(name);
        proof {
            law_registered_models_can_be_used(before, name@, m);
            assert(before.models.len() == self.models@.len());
        }
        if i < self.keys.len() {
            self.models.set(i, config);
            assert(self@.models =~= before.models.update(i as int, m));
        } else {
            self.keys.push(name.to_owned());
            self.models.push(config);
            assert(self@.keys =~= before.keys.push(name@));
            assert(self@.models =~= before.models.push(m));
        }
        if self.active.as_str().is_empty() {
            self.active = name.to_owned();
        }
    }

    /// Uses the model of a name, if there is one.
    pub fn set_active(&mut self, name: &str) -> (r: Result<(), String>)
        ensures
            r is Ok <==> old(self)@.keys.contains(name@),
            r is Ok ==> final(self)@ == (SelectorModel { active: name@, ..old(self)@ }),
            r matches Err(e) ==> final(self)@ == old(self)@ && e@ == "embedding model '"@ + name@
                + "' is not registered"@,
    {
        proof {
            lemma_key_place(self@.keys, name@);
        }
        if self.place(name) < self.keys.len() {
            self.active = name.to_owned();
            Ok(())
        } else {
            let mut text = "embedding model '".to_owned();
            text.append(name);
            text.append("' is not registered");
            Err(text)
        }
    }

    /// The model that is used.
    pub fn get_active(&self) -> (r: EmbeddingModelConfig)
        requires
            self@.wf(),
        ensures
            r@ == self@.used(),
    {
        let i: usize = self.place(self.active.as_str());
        assert(self@.models.len() == self.models@.len());
        if i < self.keys.len() {
            self.models[i].clone()
        } else {
            EmbeddingModelConfig {
                model_name: "unconfigured".to_owned(),
                dimensions: 0,
                provider: EmbeddingProvider::Mock,
                batch_size: 0,
            }
        }
    }

    /// The models, in the order of their own names.
    pub fn list_models(&self) -> (r: Vec<&EmbeddingModelConfig>)
        ensures
            config_ref_models(r@) == self@.listed(),
    {
        let ghost all = self@.models;
        let ghost names = all.map_values(|m: EmbeddingModel| m.model_name);
        let mut keys: Vec<String> = Vec::new();
        let mut i: usize = 0;
        assert(texts(keys@) =~= names.take(0));
        while i < self.models.len()
            invariant
                i <= self.models@.len(),
                all == config_models(self.models@),
                names == all.map_values(|m: EmbeddingModel| m.model_name),
                texts(keys@) == names.take(i as int),
            decreases self.models@.len() - i,
        {
            keys.push(self.models[i].model_name.clone());
            assert(texts(keys@) =~= names.take(i + 1));
            i += 1;
        }
        assert(names.take(i as int) =~= names);
        let order = order_texts(keys.as_slice());
        let ghost goal = self@.listed();
        assert(places(order@).len() == order@.len());
        assert(keys@.len() == names.len()) by {
            assert(texts(keys@).len() == names.len());
        }
        let mut out: Vec<&EmbeddingModelConfig> = Vec::new();
        let mut n: usize = 0;
        assert(config_ref_models(out@) =~= goal.take(0));
        while n < order.len()
            invariant
                n <= order@.len() == goal.len(),
                all == config_models(self.models@),
                names == all.map_values(|m: EmbeddingModel| m.model_name),
                goal == sorted_order(names.len(), by_text(names)).map_values(|i: int| all[i]),
                places(order@) == sorted_order(names.len(), by_text(names)),
                forall|a: int| 0 <= a < order@.len() ==> (#[trigger] order@[a])
                    < self.models@.len(),
                config_ref_models(out@) == goal.take(n as int),
            decreases order@.len() - n,
        {
            let ghost before = config_ref_models(out@);
            out.push(&self.models[order[n]]);
            proof {
                assert(places(order@)[n as int] == order@[n as int] as int);
                assert(goal[n as int] == all[order@[n as int] as int]);
                assert(config_ref_models(out@) =~= before.push(goal[n as int]));
                assert(config_ref_models(out@) =~= goal.take(n + 1));
            }
            n += 1;
        }
        assert(goal.take(n as int) =~= goal);
        out
    }

    /// The models that are known at the start.
    pub fn default_models() -> (r: EmbeddingSelector)
        ensures
            r@.wf(),
            r@.active == "text-embedding-3-small"@,
            r@.keys == seq!["text-embedding-3-small"@, "ada-002"@, "local-minilm"@],
            r@.models == seq![
                EmbeddingModel {
                    model_name: "text-embedding-3-small"@,
                    dimensions: 1536,
                    provider: ProviderModel::OpenAI { model: "text-embedding-3-small"@ },
                    batch_size: 64,
                },
                EmbeddingModel {
                    model_name: "ada-002"@,
                    dimensions: 1536,
                    provider: ProviderModel::OpenAI { model: "text-embedding-ada-002"@ },
                    batch_size: 64,
                },
                EmbeddingModel {
                    model_name: "local-minilm"@,
                    dimensions: 384,
                    provider: ProviderModel::Local { path: "models/all-MiniLM-L6-v2.onnx"@ },
                    batch_size: 32,
                },
            ],
    {
        let mut s = EmbeddingSelector::new();
        proof {
            reveal_strlit("text-embedding-3-small");
            reveal_strlit("ada-002");
            reveal_strlit("local-minilm");
            assert("text-embedding-3-small"@.len() == 22);
            assert("ada-002"@.len() == 7);
            assert("local-minilm"@.len() == 12);
        }
        let ghost m0 = s@;
        proof {
            lemma_key_place(m0.keys, "text-embedding-3-small"@);
        }
        s.register_model(
            "text-embedding-3-small",
            EmbeddingModelConfig {
                model_name: "text-embedding-3-small".to_owned(),
                dimensions: 1536,
                provider: EmbeddingProvider::OpenAI { model: "text-embedding-3-small".to_owned() },
                batch_size: 64,
            },
        );
        assert(s@.keys =~= seq!["text-embedding-3-small"@]);
        proof {
            lemma_key_place(s@.keys, "ada-002"@);
        }
        s.register_model(
            "ada-002",
            EmbeddingModelConfig {
                model_name: "ada-002".to_owned(),
                dimensions: 1536,
                provider: EmbeddingProvider::OpenAI { model: "text-embedding-ada-002".to_owned() },
                batch_size: 64,
            },
        );
        assert(s@.keys =~= seq!["text-embedding-3-small"@, "ada-002"@]);
        proof {
            lemma_key_place(s@.keys, "local-minilm"@);
        }
        s.register_model(
            "local-minilm",
            EmbeddingModelConfig {
                model_name: "local-minilm".to_owned(),
                dimensions: 384,
                provider: EmbeddingProvider::Local {
                    path: "models/all-MiniLM-L6-v2.onnx".to_owned(),
                },
                batch_size: 32,
            },
        );
        s
    }
}

impl Default for EmbeddingSelector {
    fn default() -> (r: EmbeddingSelector)
        ensures
            r@.wf(),
            r@.keys.len() == 0,
            r@.active.len() == 0,
    {
        EmbeddingSelector::new()
    }
}

/// A name stands for the model that was registered last under it; registering one leaves
/// the others, and which of them is used, as they were.
pub proof fn law_registering_leaves_the_others(
    s: SelectorModel,
    name: Seq<char>,
    m: EmbeddingModel,
    other: Seq<char>,
)
    requires
        s.wf(),
        other != name,
    ensures
        s.registered(name, m).keys.contains(other) <==> s.keys.contains(other),
        s.keys.contains(other) ==> (SelectorModel { active: other, ..s.registered(name, m) }).used()
            == (SelectorModel { active: other, ..s }).used(),
        s.active.len() > 0 ==> s.registered(name, m).active == s.active,
        s.registered(name, m).keys.len() == s.keys.len() + (if s.keys.contains(name) {
            0nat
        } else {
            1nat
        }),
{
    lemma_key_place(s.keys, name);
    lemma_key_place(s.keys, other);
    let r = s.registered(name, m);
    lemma_key_place(r.keys, other);
    let at = key_place(s.keys, other);
    if s.keys.contains(other) {
        assert(r.keys[at] == other);
        assert forall|i: int| 0 <= i < at implies #[trigger] r.keys[i] != other by {
            assert(s.keys[i] != other);
        }
        lemma_key_place_is(r.keys, other, at);
    } else if r.keys.contains(other) {
        let k = choose|k: int| 0 <= k < r.keys.len() && r.keys[k] == other;
        if k < s.keys.len() {
            assert(s.keys[k] == other);
        }
    }
    if s.keys.contains(name) {
        let k = choose|k: int| 0 <= k < s.keys.len() && s.keys[k] == name;
        assert(s.keys[k] == name);
    }
}

} // verus!
