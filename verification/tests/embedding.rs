use caduceus::embedding::{EmbeddingModelConfig, EmbeddingProvider, EmbeddingSelector};

#[test]
fn embedding_selector_registers_selects_and_lists_models() {
    let mut selector = EmbeddingSelector::new();
    selector.register_model(
        "mock-large",
        EmbeddingModelConfig {
            model_name: "mock-large".to_string(),
            dimensions: 768,
            provider: EmbeddingProvider::Mock,
            batch_size: 16,
        },
    );
    selector.register_model(
        "hf-small",
        EmbeddingModelConfig {
            model_name: "hf-small".to_string(),
            dimensions: 384,
            provider: EmbeddingProvider::HuggingFace {
                model_id: "sentence-transformers/all-MiniLM-L6-v2".to_string(),
            },
            batch_size: 8,
        },
    );

    selector.set_active("hf-small").unwrap();
    assert_eq!(selector.get_active().model_name, "hf-small");

    let names: Vec<&str> = selector
        .list_models()
        .iter()
        .map(|config| config.model_name.as_str())
        .collect();
    assert_eq!(names, vec!["hf-small", "mock-large"]);
}

#[test]
fn embedding_selector_exposes_default_models() {
    let selector = EmbeddingSelector::default_models();
    let names: Vec<&str> = selector
        .list_models()
        .iter()
        .map(|config| config.model_name.as_str())
        .collect();

    assert_eq!(selector.get_active().model_name, "text-embedding-3-small");
    assert!(names.contains(&"text-embedding-3-small"));
    assert!(names.contains(&"ada-002"));
    assert!(names.contains(&"local-minilm"));
}

#[test]
fn embedding_selector_rejects_unknown_active_model() {
    let mut selector = EmbeddingSelector::default_models();
    let err = selector.set_active("missing-model").unwrap_err();
    assert!(err.contains("missing-model"));
}

#[test]
fn embedding_selector_returns_mock_when_unconfigured() {
    let selector = EmbeddingSelector::new();
    let active = selector.get_active();

    assert_eq!(active.model_name, "unconfigured");
    assert_eq!(active.provider, EmbeddingProvider::Mock);
}

#[test]
fn the_first_model_is_used_and_can_be_replaced() {
    let config = |dimensions: usize| EmbeddingModelConfig {
        model_name: "m".to_string(),
        dimensions,
        provider: EmbeddingProvider::Local { path: "p".to_string() },
        batch_size: 1,
    };
    let mut s = EmbeddingSelector::default();
    s.register_model("one", config(1));
    s.register_model("two", config(2));
    assert_eq!(s.get_active().dimensions, 1);
    s.register_model("one", config(3));
    assert_eq!(s.get_active().dimensions, 3);
    assert_eq!(s.list_models().len(), 2);
    assert_eq!(
        s.set_active("three"),
        Err("embedding model 'three' is not registered".to_string())
    );
}
