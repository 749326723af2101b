use forge::store::{CacheIndex, ImageConfig, ImageManifest, ImageStore, StoreError};

fn sample_manifest() -> ImageManifest {
    ImageManifest {
        name: String::from("app"),
        tag: String::from("latest"),
        layers: vec![
            String::from("sha256:2cf24dba5fb0a30e26e83b2ac5b9e29e1b161e5c1fa7425e73043362938b9824"),
            String::from("sha256:e3b0c44298fc1c149afbf4c8996fb92427ae41e4649b934ca495991b7852b855"),
        ],
    }
}

#[test]
fn manifest_json_has_the_expected_shape() {
    let m = ImageManifest {
        name: String::from("a"),
        tag: String::from("b"),
        layers: vec![String::from("x")],
    };
    assert_eq!(m.to_json(), "{\"name\":\"a\",\"tag\":\"b\",\"layers\":[\"x\"]}");
}

#[test]
fn manifest_with_no_layers_renders_an_empty_array() {
    let m = ImageManifest { name: String::from("a"), tag: String::from("b"), layers: vec![] };
    assert_eq!(m.to_json(), "{\"name\":\"a\",\"tag\":\"b\",\"layers\":[]}");
}

#[test]
fn manifest_round_trips() {
    let m = sample_manifest();
    let json = m.to_json();
    let back = ImageManifest::from_json(&json).expect("round trip");
    assert_eq!(back.name, m.name);
    assert_eq!(back.tag, m.tag);
    assert_eq!(back.layers, m.layers);
}

#[test]
fn manifest_with_escapes_round_trips() {
    let m = ImageManifest {
        name: String::from("we\"ird\\name\n"),
        tag: String::from("\tv1\r"),
        layers: vec![String::from("sha256:ab\"c")],
    };
    let json = m.to_json();
    let back = ImageManifest::from_json(&json).expect("round trip");
    assert_eq!(back.name, m.name);
    assert_eq!(back.tag, m.tag);
    assert_eq!(back.layers, m.layers);
}

#[test]
fn manifest_parses_with_whitespace_between_tokens() {
    let json = "{ \"name\" : \"a\" , \"tag\" : \"b\" , \"layers\" : [ \"x\" , \"y\" ] }";
    let m = ImageManifest::from_json(json).expect("whitespace-tolerant parse");
    assert_eq!(m.name, "a");
    assert_eq!(m.layers, vec![String::from("x"), String::from("y")]);
}

#[test]
fn malformed_manifest_is_an_error() {
    assert!(matches!(ImageManifest::from_json("not json"), Err(StoreError::BadManifest)));
    assert!(matches!(
        ImageManifest::from_json("{\"name\":\"a\",\"tag\":\"b\"}"),
        Err(StoreError::BadManifest)
    ));
    assert!(matches!(
        ImageManifest::from_json("{\"name\":\"a\",\"tag\":\"b\",\"layers\":[\"x\"]} extra"),
        Err(StoreError::BadManifest)
    ));
}

#[test]
fn manifest_json_is_valid_json_for_other_readers() {
    let m = sample_manifest();
    let parsed: serde_json::Value = serde_json::from_str(&m.to_json()).expect("valid JSON");
    assert_eq!(parsed["name"], serde_json::Value::String(String::from("app")));
    assert_eq!(parsed["tag"], serde_json::Value::String(String::from("latest")));
    assert_eq!(parsed["layers"].as_array().unwrap().len(), 2);
}

#[test]
fn escaped_manifest_json_is_valid_json_for_other_readers() {
    let m = ImageManifest {
        name: String::from("we\"ird\\name\n\t\r"),
        tag: String::from("t"),
        layers: vec![],
    };
    let parsed: serde_json::Value = serde_json::from_str(&m.to_json()).expect("valid JSON");
    assert_eq!(parsed["name"], serde_json::Value::String(String::from("we\"ird\\name\n\t\r")));
}

#[test]
fn config_round_trips() {
    let c = ImageConfig {
        entrypoint: vec![String::from("/bin/cat"), String::from("/greeting")],
        env: vec![String::from("PATH=/usr/local/bin:/usr/bin:/bin"), String::from("FOO=bar=baz")],
        working_dir: String::from("/app"),
    };
    let json = c.to_json();
    let back = ImageConfig::from_json(&json).expect("round trip");
    assert_eq!(back.entrypoint, c.entrypoint);
    assert_eq!(back.env, c.env);
    assert_eq!(back.working_dir, c.working_dir);
}

#[test]
fn config_json_has_the_expected_shape() {
    let c = ImageConfig {
        entrypoint: vec![],
        env: vec![String::from("A=1")],
        working_dir: String::from("/"),
    };
    assert_eq!(c.to_json(), "{\"entrypoint\":[],\"env\":[\"A=1\"],\"working_dir\":\"/\"}");
}

#[test]
fn malformed_config_is_an_error() {
    assert!(matches!(ImageConfig::from_json("{}"), Err(StoreError::BadConfig)));
}

#[test]
fn cache_index_round_trips() {
    let mut idx = CacheIndex::new();
    idx.put("cache:k1", "sha256:d1");
    idx.put("cache:k2", "sha256:d2");
    let json = idx.to_json();
    let store = ImageStore::new(String::from("/tmp/imgs"));
    let back = store.load_cache_index(&json);
    assert_eq!(back.get("cache:k1"), Some(String::from("sha256:d1")));
    assert_eq!(back.get("cache:k2"), Some(String::from("sha256:d2")));
    assert_eq!(back.get("cache:k3"), None);
}

#[test]
fn corrupt_cache_index_is_the_empty_index() {
    let store = ImageStore::new(String::from("/tmp/imgs"));
    for bad in ["", "not json", "[1,2,3]", "{\"k\": 5}", "{\"k\": \"v\" trailing"] {
        let idx = store.load_cache_index(bad);
        assert_eq!(idx.get("k"), None);
        assert_eq!(idx.to_json(), "{}");
    }
}

#[test]
fn absent_cache_index_is_the_empty_index() {
    let idx = CacheIndex::new();
    assert_eq!(idx.get("anything"), None);
    assert_eq!(idx.to_json(), "{}");
}

#[test]
fn cache_put_replaces_the_digest_for_a_key() {
    let mut idx = CacheIndex::new();
    idx.put("k", "d1");
    idx.put("other", "d9");
    idx.put("k", "d2");
    assert_eq!(idx.get("k"), Some(String::from("d2")));
    assert_eq!(idx.get("other"), Some(String::from("d9")));
}

#[test]
fn save_manifest_requires_every_layer() {
    let mut store = ImageStore::new(String::from("/tmp/imgs"));
    let m = sample_manifest();
    assert!(matches!(store.save_manifest(&m), Err(StoreError::MissingLayer)));

    let d1 = store.save_layer(b"hello");
    assert_eq!(d1, "sha256:2cf24dba5fb0a30e26e83b2ac5b9e29e1b161e5c1fa7425e73043362938b9824");
    assert!(matches!(store.save_manifest(&m), Err(StoreError::MissingLayer)));

    let d2 = store.save_layer(b"");
    assert_eq!(d2, "sha256:e3b0c44298fc1c149afbf4c8996fb92427ae41e4649b934ca495991b7852b855");
    let json = store.save_manifest(&m).expect("all layers present");
    let back = store.load_manifest(&json).expect("parses");
    assert_eq!(back.layers, m.layers);
}

#[test]
fn layer_exists_only_after_saving() {
    let mut store = ImageStore::new(String::from("/tmp/imgs"));
    let digest = "sha256:2cf24dba5fb0a30e26e83b2ac5b9e29e1b161e5c1fa7425e73043362938b9824";
    assert!(!store.layer_exists(digest));
    let d = store.save_layer(b"hello");
    assert_eq!(d, digest);
    assert!(store.layer_exists(digest));
}

#[test]
fn layer_and_manifest_paths_follow_the_layout() {
    let store = ImageStore::new(String::from("/root/.container-runtime/images"));
    assert_eq!(
        store.get_layer_path("sha256:abc"),
        "/root/.container-runtime/images/layers/sha256:abc"
    );
    assert_eq!(
        store.manifest_path("app", "latest"),
        "/root/.container-runtime/images/manifests/app/latest"
    );
    assert_eq!(
        store.config_path("app", "latest"),
        "/root/.container-runtime/images/manifests/app/latest.config"
    );
    let dirs = store.store_dirs();
    assert_eq!(dirs.len(), 3);
    assert_eq!(dirs[1], "/root/.container-runtime/images/layers");
    assert_eq!(dirs[2], "/root/.container-runtime/images/manifests");
}

#[test]
fn cached_layer_lookup_goes_through_the_store() {
    let mut store = ImageStore::new(String::from("/tmp/imgs"));
    assert_eq!(store.get_cached_layer("cache:k"), None);
    store.cache_layer("cache:k", "sha256:d");
    assert_eq!(store.get_cached_layer("cache:k"), Some(String::from("sha256:d")));
    assert_eq!(store.save_cache_index(), "{\"cache:k\":\"sha256:d\"}");
}

#[test]
fn pretty_printed_documents_also_load() {
    let store = ImageStore::new(String::from("/tmp/imgs"));
    let idx = store.load_cache_index("{\n  \"cache:k\": \"sha256:d\"\n}\n");
    assert_eq!(idx.get("cache:k"), Some(String::from("sha256:d")));
    let config = ImageConfig::from_json(
        "{\n  \"entrypoint\": [\n    \"/bin/sh\"\n  ],\n  \"env\": [],\n  \"working_dir\": \"/\"\n}",
    )
    .expect("pretty config parses");
    assert_eq!(config.entrypoint, vec![String::from("/bin/sh")]);
    assert_eq!(config.env.len(), 0);
}
